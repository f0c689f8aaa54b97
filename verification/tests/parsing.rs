use reverdle::feedback::Colour;
use reverdle::feedback::Guess;
use reverdle::input::Input;
use reverdle::letters::LetterSet;

#[test]
fn classifies_each_known_symbol() {
    assert_eq!(Colour::from_char('\u{1F7E9}').unwrap(), Colour::Green);
    assert_eq!(Colour::from_char('\u{1F7E8}').unwrap(), Colour::Yellow);
    assert_eq!(Colour::from_char('\u{2B1B}').unwrap(), Colour::Grey);
}

#[test]
fn rejects_unrecognized_symbol() {
    let err = Colour::from_char('X').unwrap_err();
    assert_eq!(err.token, 'X');
    let err = Colour::from_char('\u{2B1C}').unwrap_err();
    assert_eq!(err.token, '\u{2B1C}');
}

#[test]
fn classifies_a_whole_row() {
    let row = Guess::from_emoji("\u{1F7E9}\u{1F7E8}\u{2B1B}\u{2B1B}\u{1F7E9}").unwrap();
    assert_eq!(
        row.letters,
        vec![
            Colour::Green,
            Colour::Yellow,
            Colour::Grey,
            Colour::Grey,
            Colour::Green
        ]
    );
}

#[test]
fn row_with_bad_token_yields_no_partial_row() {
    let res = Guess::from_emoji("\u{1F7E9}\u{1F7E8}Q\u{2B1B}");
    match res {
        Ok(_) => panic!("a malformed row must be rejected"),
        Err(e) => assert_eq!(e.token, 'Q'),
    }
}

#[test]
fn empty_row_parses_to_no_symbols() {
    let row = Guess::from_emoji("").unwrap();
    assert!(row.letters.is_empty());
}

#[test]
fn letter_set_membership() {
    let mut s = LetterSet::empty();
    assert!(!s.contains('A'));
    s.insert('A');
    s.insert('B');
    assert!(s.contains('A'));
    assert!(s.contains('B'));
    assert!(!s.contains('C'));
}

#[test]
fn letter_set_union_and_difference() {
    let ab = LetterSet::of_word("AB");
    let bc = LetterSet::of_word("BC");
    let u = ab.union(&bc);
    assert!(u.contains('A') && u.contains('B') && u.contains('C'));
    assert!(!u.contains('D'));
    let d = ab.difference(&bc);
    assert!(d.contains('A'));
    assert!(!d.contains('B'));
    assert!(!d.contains('C'));
}

#[test]
fn solution_letter_access() {
    let input = Input {
        solution: "CRANE".to_string(),
        guesses: Vec::new(),
    };
    assert_eq!(input.letter(0), 'C');
    assert_eq!(input.letter(4), 'E');

    let others = input.other_letters(0);
    assert!(!others.contains('C'));
    assert!(others.contains('R'));
    assert!(others.contains('E'));

    let all = input.all_letters();
    for c in ['C', 'R', 'A', 'N', 'E'] {
        assert!(all.contains(c));
    }
    assert!(!all.contains('X'));
}

#[test]
fn repeated_letter_stays_in_other_positions() {
    let input = Input {
        solution: "CHESS".to_string(),
        guesses: Vec::new(),
    };
    // Removing the first 'S' position still leaves the second 'S'.
    let others = input.other_letters(3);
    assert!(others.contains('S'));
    assert!(others.contains('C'));
    // A letter that occurs once disappears when its position is removed.
    let others = input.other_letters(1);
    assert!(!others.contains('H'));
}
