use dice_game::setup::{
    mark, parse_faces, read_values, starting_die, starting_die_from_line, Mark, SetupError,
    INITIAL_DICE_SUM,
};

#[test]
fn parses_plain_numbers() {
    assert_eq!(parse_faces("1 2 3 3 4 5"), vec![1, 2, 3, 3, 4, 5]);
}

#[test]
fn parses_across_any_white_space() {
    assert_eq!(parse_faces("  1\t2\n3 \u{2003}4\r\n"), vec![1, 2, 3, 4]);
}

#[test]
fn passes_over_characters_that_are_not_numeric() {
    assert_eq!(parse_faces("a1b2 x3, -4 5."), vec![12, 3, 4, 5]);
}

#[test]
fn leaves_out_words_without_digits() {
    assert_eq!(parse_faces("one 2 three"), vec![2]);
    assert_eq!(parse_faces(""), Vec::<usize>::new());
    assert_eq!(parse_faces("   "), Vec::<usize>::new());
}

#[test]
fn leaves_out_words_with_other_numerals() {
    assert_eq!(parse_faces("1 \u{0663} 2\u{00BD} 4"), vec![1, 4]);
}

#[test]
fn reads_leading_zeros() {
    assert_eq!(parse_faces("007 0 00"), vec![7, 0, 0]);
}

#[test]
fn leaves_out_numbers_too_large_to_store() {
    let largest = usize::MAX.to_string();
    let line = format!("{} {}0 1{}", largest, largest, largest);
    assert_eq!(parse_faces(&line), vec![usize::MAX]);
}

#[test]
fn agrees_with_the_standard_reading() {
    let lines = ["3 3 3 3 3 3", " 18 0 0 0 0 0 ", "1,2;3 four 5six 7", "\u{0663}3 9"];
    for line in lines {
        let expected: Vec<usize> = line
            .split_whitespace()
            .filter_map(|word| {
                word.chars().filter(|c| c.is_numeric()).collect::<String>().parse().ok()
            })
            .collect();
        assert_eq!(parse_faces(line), expected);
    }
}

#[test]
fn marks_follow_the_classification() {
    assert_eq!(mark(' ', true, false), Mark::Space);
    assert_eq!(mark('7', false, true), Mark::Digit(7));
    assert_eq!(mark('0', false, true), Mark::Digit(0));
    assert_eq!(mark('\u{0663}', false, true), Mark::Numeral);
    assert_eq!(mark('x', false, false), Mark::Other);
    assert_eq!(mark('7', false, false), Mark::Other);
    assert_eq!(mark('7', true, true), Mark::Space);
}

#[test]
fn read_values_on_given_marks() {
    let marks = vec![
        Mark::Digit(1),
        Mark::Other,
        Mark::Digit(2),
        Mark::Space,
        Mark::Space,
        Mark::Digit(3),
        Mark::Numeral,
        Mark::Space,
        Mark::Other,
        Mark::Space,
        Mark::Digit(0),
        Mark::Digit(9),
    ];
    assert_eq!(read_values(&marks), vec![12, 9]);
}

#[test]
fn accepts_six_positive_faces_that_add_up_to_eighteen() {
    assert_eq!(INITIAL_DICE_SUM, 18);
    let die = starting_die(&vec![5, 1, 4, 2, 3, 3]).unwrap();
    assert_eq!(die.faces(), [1, 2, 3, 3, 4, 5]);
}

#[test]
fn reports_a_wrong_sum() {
    assert_eq!(starting_die(&vec![1, 2, 3, 3, 4, 6]), Err(SetupError::WrongSum { sum: 19 }));
}

#[test]
fn reports_a_wrong_count() {
    assert_eq!(starting_die(&vec![9, 9]), Err(SetupError::WrongCount { count: 2 }));
    assert_eq!(
        starting_die(&vec![3, 3, 3, 3, 3, 3, 0]),
        Err(SetupError::WrongCount { count: 7 })
    );
}

#[test]
fn reports_a_wrong_count_and_sum() {
    assert_eq!(
        starting_die(&vec![1, 2, 3]),
        Err(SetupError::WrongCountAndSum { count: 3, sum: 6 })
    );
    assert_eq!(
        starting_die(&Vec::new()),
        Err(SetupError::WrongCountAndSum { count: 0, sum: 0 })
    );
}

#[test]
fn reports_a_sum_beyond_the_machine_word() {
    assert_eq!(
        starting_die(&vec![usize::MAX, usize::MAX]),
        Err(SetupError::WrongCountAndSum { count: 2, sum: 2 * (usize::MAX as u128) })
    );
}

#[test]
fn reports_a_zero_face() {
    assert_eq!(starting_die(&vec![0, 0, 0, 6, 6, 6]), Err(SetupError::ZeroFace));
    assert_eq!(starting_die(&vec![18, 0, 0, 0, 0, 0]), Err(SetupError::ZeroFace));
}

#[test]
fn makes_a_die_from_a_line() {
    let die = starting_die_from_line("6 5 4 1 1 1\n").unwrap();
    assert_eq!(die.faces(), [1, 1, 1, 4, 5, 6]);
    assert_eq!(
        starting_die_from_line("six five 4\n"),
        Err(SetupError::WrongCountAndSum { count: 1, sum: 4 })
    );
}
