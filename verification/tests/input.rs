use checkers::{
    can_parse_move, classify, parse_move, read_move, spell, try_parse_move, BoardPosition,
    Classified, InputError, TokenError,
};

fn check_parse_move(the_move: &str, exp_result: Vec<BoardPosition>) {
    let result = parse_move(the_move).ok().unwrap();

    assert_eq!(exp_result, result);
}

#[test]
fn test_parse_move_a1_a1() {
    check_parse_move("a1 a1", vec![BoardPosition::new(0, 0), BoardPosition::new(0, 0)]);
}

#[test]
fn test_parse_move_a2_a1() {
    check_parse_move("a2 a1", vec![BoardPosition::new(0, 1), BoardPosition::new(0, 0)]);
}

#[test]
fn test_parse_move_a1_a2() {
    check_parse_move("a1 a2", vec![BoardPosition::new(0, 0), BoardPosition::new(0, 1)]);
}

#[test]
fn test_parse_move_a2_a2() {
    check_parse_move("a2 a2", vec![BoardPosition::new(0, 1), BoardPosition::new(0, 1)]);
}

#[test]
fn test_parse_move_aa1_aa1() {
    check_parse_move("aa1 aa1", vec![BoardPosition::new(26, 0), BoardPosition::new(26, 0)]);
}

#[test]
fn test_parse_move_aa1_ab1() {
    check_parse_move("aa1 ab1", vec![BoardPosition::new(26, 0), BoardPosition::new(27, 0)]);
}

#[test]
fn test_parse_move_ab1_aa1() {
    check_parse_move("ab1 aa1", vec![BoardPosition::new(27, 0), BoardPosition::new(26, 0)]);
}

#[test]
fn test_parse_move_yy99_zz99() {
    check_parse_move("yy99 zz99", vec![BoardPosition::new(674, 98), BoardPosition::new(701, 98)]);
}

#[test]
fn test_parse_move_aaa99_aaa99() {
    check_parse_move(
        "aaa99 aaa99",
        vec![BoardPosition::new(702, 98), BoardPosition::new(702, 98)],
    );
}

#[test]
fn test_parse_move_xfd13_ahh37() {
    check_parse_move(
        "xfd13 ahh37",
        vec![BoardPosition::new(16383, 12), BoardPosition::new(891, 36)],
    );
}

#[test]
fn test_parse_move_xx123_yy456_zz789() {
    check_parse_move(
        "xx123 yy456 zz789",
        vec![
            BoardPosition::new(647, 122),
            BoardPosition::new(674, 455),
            BoardPosition::new(701, 788),
        ],
    );
}

fn check_parse_move_fail(the_move: &str, exp_result: InputError) {
    let result = parse_move(the_move).err().unwrap();

    assert_eq!(exp_result, result);
}

#[test]
fn test_parse_move_fail_too_few_tokens_empty() {
    check_parse_move_fail("", InputError::TooFewTokens);
}

#[test]
fn test_parse_move_fail_too_few_tokens_a1() {
    check_parse_move_fail("a1", InputError::TooFewTokens);
}

#[test]
fn test_parse_move_fail_too_few_tokens_z9() {
    check_parse_move_fail("z9", InputError::TooFewTokens);
}

#[test]
fn test_parse_move_fail_missing_rank_a1_a() {
    check_parse_move_fail(
        "a1 a",
        InputError::InvalidTokens {
            tokens: vec![TokenError::MissingRank { token: "a".to_string() }],
        },
    );
}

#[test]
fn test_parse_move_fail_missing_file_a1_1() {
    check_parse_move_fail(
        "a1 1",
        InputError::InvalidTokens {
            tokens: vec![TokenError::MissingFile { token: "1".to_string() }],
        },
    );
}

#[test]
fn test_parse_move_fail_missing_rank_file_a_1() {
    check_parse_move_fail(
        "a 1",
        InputError::InvalidTokens {
            tokens: vec![
                TokenError::MissingRank { token: "a".to_string() },
                TokenError::MissingFile { token: "1".to_string() },
            ],
        },
    );
}

#[test]
fn test_parse_move_fail_zero_rank() {
    check_parse_move_fail(
        "a1 a0",
        InputError::InvalidTokens {
            tokens: vec![TokenError::ZeroRank { token: "a0".to_string() }],
        },
    );
}

#[test]
fn test_parse_move_fail_invalid_character() {
    check_parse_move_fail(
        "a1 a$",
        InputError::InvalidTokens {
            tokens: vec![TokenError::InvalidCharacter { token: "a$".to_string(), char_index: 1 }],
        },
    );
}

#[test]
fn test_parse_move_fail_invalid_characters() {
    check_parse_move_fail(
        "#1 a$",
        InputError::InvalidTokens {
            tokens: vec![
                TokenError::InvalidCharacter { token: "#1".to_string(), char_index: 0 },
                TokenError::InvalidCharacter { token: "a$".to_string(), char_index: 1 },
            ],
        },
    );
}

#[test]
fn capital_letters_name_the_same_files() {
    check_parse_move("A1 Ab2", vec![BoardPosition::new(0, 0), BoardPosition::new(27, 1)]);
}

#[test]
fn words_are_parted_by_any_white_space() {
    check_parse_move(
        "  a1\tb2\n\u{a0}c3\u{2003} ",
        vec![BoardPosition::new(0, 0), BoardPosition::new(1, 1), BoardPosition::new(2, 2)],
    );
}

#[test]
fn leading_zeros_do_not_count() {
    check_parse_move("a01 b0002", vec![BoardPosition::new(0, 0), BoardPosition::new(1, 1)]);
    check_parse_move_fail(
        "a1 a000",
        InputError::InvalidTokens {
            tokens: vec![TokenError::ZeroRank { token: "a000".to_string() }],
        },
    );
}

#[test]
fn a_letter_after_the_digits_is_an_invalid_character() {
    check_parse_move_fail(
        "a1b c3",
        InputError::InvalidTokens {
            tokens: vec![TokenError::InvalidCharacter { token: "a1b".to_string(), char_index: 2 }],
        },
    );
}

#[test]
fn one_fault_among_good_words_is_reported_alone() {
    check_parse_move_fail(
        "a1 b2 3 c4",
        InputError::InvalidTokens {
            tokens: vec![TokenError::MissingFile { token: "3".to_string() }],
        },
    );
}

#[test]
fn letters_of_other_alphabets_without_digits_miss_their_rank() {
    check_parse_move_fail(
        "a1 \u{e9}",
        InputError::InvalidTokens {
            tokens: vec![TokenError::MissingRank { token: "\u{e9}".to_string() }],
        },
    );
    check_parse_move_fail(
        "a1 \u{e9}$",
        InputError::InvalidTokens {
            tokens: vec![TokenError::InvalidCharacter {
                token: "\u{e9}$".to_string(),
                char_index: 1,
            }],
        },
    );
}

#[test]
fn words_whose_numbers_cannot_be_had_are_not_parsed() {
    // a letter that is none of the 26, with digits after it
    assert!(!can_parse_move("a1 \u{e9}1"));
    assert_eq!(None, try_parse_move("a1 \u{e9}1"));
    // a numeric character that is none of the ten digits
    assert!(!can_parse_move("a\u{b2} b1"));
    assert_eq!(None, try_parse_move("a\u{b2} b1"));
    // numbers beyond what the machine counts
    assert!(!can_parse_move("a99999999999999999999999999999999999999999 b1"));
    assert!(!can_parse_move("zzzzzzzzzzzzzzzzzzzzzzzzzzzzzzzzzzzzzzzzzz1 b1"));
    assert_eq!(None, try_parse_move("zzzzzzzzzzzzzzzzzzzzzzzzzzzzzzzzzzzzzzzzzz1 b1"));
}

#[test]
fn the_greatest_numbers_are_parsed() {
    let text = format!("a{} b1", usize::MAX);
    assert!(can_parse_move(&text));
    assert_eq!(
        Some(Ok(vec![BoardPosition::new(0, usize::MAX - 1), BoardPosition::new(1, 0)])),
        try_parse_move(&text)
    );
    let beyond = format!("a{}0 b1", usize::MAX);
    assert!(!can_parse_move(&beyond));
}

#[test]
fn try_parse_move_parses_what_can_be_parsed() {
    assert!(can_parse_move("a1 b2"));
    assert_eq!(
        Some(Ok(vec![BoardPosition::new(0, 0), BoardPosition::new(1, 1)])),
        try_parse_move("a1 b2")
    );
    assert!(can_parse_move("a1 $"));
    assert_eq!(
        Some(Err(InputError::InvalidTokens {
            tokens: vec![TokenError::InvalidCharacter { token: "$".to_string(), char_index: 0 }],
        })),
        try_parse_move("a1 $")
    );
    assert_eq!(Some(Err(InputError::TooFewTokens)), try_parse_move("   "));
}

#[test]
fn characters_are_classified_as_std_does() {
    let classified = classify("a1 \u{e9}\u{b2}$");

    let expected = vec![
        Classified { ch: 'a', alphabetic: true, numeric: false, whitespace: false },
        Classified { ch: '1', alphabetic: false, numeric: true, whitespace: false },
        Classified { ch: ' ', alphabetic: false, numeric: false, whitespace: true },
        Classified { ch: '\u{e9}', alphabetic: true, numeric: false, whitespace: false },
        Classified { ch: '\u{b2}', alphabetic: false, numeric: true, whitespace: false },
        Classified { ch: '$', alphabetic: false, numeric: false, whitespace: false },
    ];
    assert_eq!(expected, classified);
    assert_eq!("a1 \u{e9}\u{b2}$", spell(&classified));
}

#[test]
fn a_move_is_read_by_the_classes_of_its_characters() {
    let letter = |ch| Classified { ch, alphabetic: true, numeric: false, whitespace: false };
    let digit = |ch| Classified { ch, alphabetic: false, numeric: true, whitespace: false };
    let space = |ch| Classified { ch, alphabetic: false, numeric: false, whitespace: true };
    let other = |ch| Classified { ch, alphabetic: false, numeric: false, whitespace: false };

    // an underscore that counts as white space parts the words
    let text = vec![letter('b'), digit('3'), space('_'), letter('C'), digit('1'), digit('0')];
    assert_eq!(
        Some(Ok(vec![BoardPosition::new(1, 2), BoardPosition::new(2, 9)])),
        read_move(&text)
    );
    // a space that does not count as white space is an invalid character
    let text = vec![letter('b'), digit('3'), other(' '), letter('c'), digit('1')];
    assert_eq!(
        Some(Err(InputError::InvalidTokens {
            tokens: vec![TokenError::InvalidCharacter {
                token: "b3 c1".to_string(),
                char_index: 2
            }],
        })),
        read_move(&text)
    );
    // a digit that counts as a letter belongs to the file, and then is none of the 26
    let text = vec![letter('7'), digit('3'), space(' '), letter('c'), digit('1')];
    assert_eq!(None, read_move(&text));
    // a letter that counts as numeric belongs to the rank, and then is none of the ten
    let text = vec![letter('a'), digit('x'), space(' '), letter('c'), digit('1')];
    assert_eq!(None, read_move(&text));
}
