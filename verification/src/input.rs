use crate::board::BoardPosition;
use crate::text::{classified_text, classify, spell, spelled, Classified};
use vstd::prelude::*;

verus! {

/// Why a text does not name a move.
#[derive(Debug, PartialEq, Eq)]
pub enum InputError {
    /// The text names fewer than two positions.
    TooFewTokens,
    /// Some of the words of the text name no position; one error for each
    /// of them, in their order.
    InvalidTokens { tokens: Vec<TokenError> },
}

/// Why a word names no position.
#[derive(Debug, PartialEq, Eq)]
pub enum TokenError {
    /// The word does not start with letters.
    MissingFile { token: String },
    /// No digits follow the letters of the word.
    MissingRank { token: String },
    /// The digits of the word make the number zero.
    ZeroRank { token: String },
    /// The character at this place of the word can not stand there.
    InvalidCharacter { token: String, char_index: usize },
}

/// A `TokenError` as a mathematical value.
pub enum TokenFault {
    MissingFile { token: Seq<char> },
    MissingRank { token: Seq<char> },
    ZeroRank { token: Seq<char> },
    InvalidCharacter { token: Seq<char>, char_index: int },
}

/// An `InputError` as a mathematical value.
pub enum InputFault {
    TooFewTokens,
    InvalidTokens { tokens: Seq<TokenFault> },
}

impl View for TokenError {
    type V = TokenFault;

    open spec fn view(&self) -> TokenFault {
        match self {
            TokenError::MissingFile { token } => TokenFault::MissingFile { token: token@ },
            TokenError::MissingRank { token } => TokenFault::MissingRank { token: token@ },
            TokenError::ZeroRank { token } => TokenFault::ZeroRank { token: token@ },
            TokenError::InvalidCharacter { token, char_index } => TokenFault::InvalidCharacter {
                token: token@,
                char_index: *char_index as int,
            },
        }
    }
}

/// The faults that a list of errors stands for, in the same order.
pub open spec fn token_faults(errors: Seq<TokenError>) -> Seq<TokenFault> {
    Seq::new(errors.len(), |i: int| errors[i]@)
}

impl View for InputError {
    type V = InputFault;

    open spec fn view(&self) -> InputFault {
        match self {
            InputError::TooFewTokens => InputFault::TooFewTokens,
            InputError::InvalidTokens { tokens } => InputFault::InvalidTokens {
                tokens: token_faults(tokens@),
            },
        }
    }
}

/// A word that has come to its end: one word, or none if it has no
/// character.
pub open spec fn finished(word: Seq<Classified>) -> Seq<Seq<Classified>> {
    if word.len() > 0 {
        seq![word]
    } else {
        Seq::empty()
    }
}

/// The words of a text that follows the begun word `word`: white space ends
/// a word, and every other character goes on with it.
pub open spec fn split_words(text: Seq<Classified>, word: Seq<Classified>) -> Seq<Seq<Classified>>
    decreases text.len(),
{
    if text.len() == 0 {
        finished(word)
    } else if text[0].whitespace {
        finished(word) + split_words(text.drop_first(), Seq::empty())
    } else {
        split_words(text.drop_first(), word.push(text[0]))
    }
}

/// The words of a text: its longest runs of characters that are no white
/// space, in their order.
pub open spec fn words(text: Seq<Classified>) -> Seq<Seq<Classified>> {
    split_words(text, Seq::empty())
}

/// How many alphabetic characters a word starts with.
pub open spec fn letters_len(word: Seq<Classified>) -> nat
    decreases word.len(),
{
    if word.len() == 0 || !word[0].alphabetic {
        0
    } else {
        1 + letters_len(word.drop_first())
    }
}

/// How many numeric characters a word starts with.
pub open spec fn digits_len(word: Seq<Classified>) -> nat
    decreases word.len(),
{
    if word.len() == 0 || !word[0].numeric {
        0
    } else {
        1 + digits_len(word.drop_first())
    }
}

/// A word in its two parts, the file and the rank: the alphabetic
/// characters that it starts with, and the numeric characters that follow
/// them. Where another character follows, the word has no such parts, and
/// the place of that character is given.
pub open spec fn file_and_rank(word: Seq<Classified>) -> Result<
    (Seq<Classified>, Seq<Classified>),
    int,
> {
    let letters = letters_len(word) as int;
    let digits = digits_len(word.skip(letters)) as int;
    if letters + digits == word.len() {
        Ok((word.take(letters), word.skip(letters)))
    } else {
        Err(letters + digits)
    }
}

/// The character is one of the 26 letters, capital or small.
pub open spec fn is_letter(ch: char) -> bool {
    ('A' <= ch && ch <= 'Z') || ('a' <= ch && ch <= 'z')
}

/// The character is one of the ten digits.
pub open spec fn is_digit(ch: char) -> bool {
    '0' <= ch && ch <= '9'
}

/// The place of a letter in the alphabet, 1 for `a` or `A`.
pub open spec fn letter_value(ch: char) -> int {
    if 'A' <= ch && ch <= 'Z' {
        ch as int - 'A' as int + 1
    } else {
        ch as int - 'a' as int + 1
    }
}

/// The number that the letters of a file stand for: `a` to `z` are 1 to 26,
/// `aa` is 27, and so on.
pub open spec fn file_value(file: Seq<Classified>) -> int
    decreases file.len(),
{
    if file.len() == 0 {
        0
    } else {
        26 * file_value(file.drop_last()) + letter_value(file.last().ch)
    }
}

/// The number that the digits of a rank stand for, in base ten.
pub open spec fn rank_value(rank: Seq<Classified>) -> int
    decreases rank.len(),
{
    if rank.len() == 0 {
        0
    } else {
        10 * rank_value(rank.drop_last()) + (rank.last().ch as int - '0' as int)
    }
}

/// Every character of the file is one of the 26 letters.
pub open spec fn all_letters(file: Seq<Classified>) -> bool {
    forall|i: int| 0 <= i < file.len() ==> is_letter((#[trigger] file[i]).ch)
}

/// Every character of the rank is one of the ten digits.
pub open spec fn all_digits(rank: Seq<Classified>) -> bool {
    forall|i: int| 0 <= i < rank.len() ==> is_digit((#[trigger] rank[i]).ch)
}

/// The numbers of a file and a rank can be had: the file is made of the 26
/// letters, the rank of the ten digits, and neither number is beyond what
/// the machine counts.
pub open spec fn numbers_readable(file: Seq<Classified>, rank: Seq<Classified>) -> bool {
    &&& all_letters(file)
    &&& all_digits(rank)
    &&& file_value(file) <= usize::MAX
    &&& rank_value(rank) <= usize::MAX
}

/// A word can be read: where it has a file and a rank, their numbers can
/// be had.
pub open spec fn word_readable(word: Seq<Classified>) -> bool {
    file_and_rank(word) matches Ok((file, rank)) ==> file.len() > 0 && rank.len() > 0
        ==> numbers_readable(file, rank)
}

/// The position that a word names, or why it names none. The file gives the
/// row and the rank the column, each counted from zero.
pub open spec fn word_result(word: Seq<Classified>) -> Result<BoardPosition, TokenFault> {
    match file_and_rank(word) {
        Err(char_index) => Err(TokenFault::InvalidCharacter { token: spelled(word), char_index }),
        Ok((file, rank)) => {
            if file.len() == 0 {
                Err(TokenFault::MissingFile { token: spelled(word) })
            } else if rank.len() == 0 {
                Err(TokenFault::MissingRank { token: spelled(word) })
            } else if rank_value(rank) == 0 {
                Err(TokenFault::ZeroRank { token: spelled(word) })
            } else {
                Ok(
                    BoardPosition {
                        row: (file_value(file) - 1) as usize,
                        column: (rank_value(rank) - 1) as usize,
                    },
                )
            }
        },
    }
}

/// The faults of the words that name no position, in their order.
pub open spec fn faults_of(words: Seq<Seq<Classified>>) -> Seq<TokenFault>
    decreases words.len(),
{
    if words.len() == 0 {
        Seq::empty()
    } else {
        match word_result(words.last()) {
            Ok(_) => faults_of(words.drop_last()),
            Err(fault) => faults_of(words.drop_last()).push(fault),
        }
    }
}

/// The positions that the words name, in their order.
pub open spec fn positions_of(words: Seq<Seq<Classified>>) -> Seq<BoardPosition>
    decreases words.len(),
{
    if words.len() == 0 {
        Seq::empty()
    } else {
        match word_result(words.last()) {
            Ok(position) => positions_of(words.drop_last()).push(position),
            Err(_) => positions_of(words.drop_last()),
        }
    }
}

/// Every word of the text can be read.
pub open spec fn move_readable(text: Seq<Classified>) -> bool {
    forall|i: int| 0 <= i < words(text).len() ==> word_readable(#[trigger] words(text)[i])
}

/// The move that a text names: the positions that its words name, where
/// every word names one and there are at least two; the faults of its words
/// where some word names none.
pub open spec fn move_result(text: Seq<Classified>) -> Result<Seq<BoardPosition>, InputFault> {
    let faults = faults_of(words(text));
    let positions = positions_of(words(text));
    if faults.len() > 0 {
        Err(InputFault::InvalidTokens { tokens: faults })
    } else if positions.len() < 2 {
        Err(InputFault::TooFewTokens)
    } else {
        Ok(positions)
    }
}

/// What was read is what the text names.
pub open spec fn reads_as(
    read: Result<Vec<BoardPosition>, InputError>,
    named: Result<Seq<BoardPosition>, InputFault>,
) -> bool {
    match read {
        Ok(positions) => named == Ok::<Seq<BoardPosition>, InputFault>(positions@),
        Err(error) => named == Err::<Seq<BoardPosition>, InputFault>(error@),
    }
}

///
/// Parse a move from a string
///
pub fn parse_move(the_move: &str) -> (result: Result<Vec<BoardPosition>, InputError>)
    requires
        move_readable(classified_text(the_move@)),
    ensures
        reads_as(result, move_result(classified_text(the_move@))),
{
    let text = classify(the_move);
    read_move(&text).unwrap()
}

/// Tells whether a text can be parsed as a move: whether every word of it
/// that has a file and a rank has them made of the 26 letters and the ten
/// digits, with numbers that the machine counts.
pub fn can_parse_move(the_move: &str) -> (readable: bool)
    ensures
        readable == move_readable(classified_text(the_move@)),
{
    let text = classify(the_move);
    read_move(&text).is_some()
}

/// Parses a move from a string where it can be parsed, and gives `None`
/// where it cannot.
pub fn try_parse_move(the_move: &str) -> (result: Option<Result<Vec<BoardPosition>, InputError>>)
    ensures
        result is Some == move_readable(classified_text(the_move@)),
        result matches Some(read) ==> reads_as(read, move_result(classified_text(the_move@))),
{
    if can_parse_move(the_move) {
        Some(parse_move(the_move))
    } else {
        None
    }
}

/// Reads a move from characters that have been classified: the words are
/// read one after the other. `None` where one of them cannot be read.
pub fn read_move(text: &Vec<Classified>) -> (result: Option<Result<Vec<BoardPosition>, InputError>>)
    ensures
        result is Some == move_readable(text@),
        result matches Some(read) ==> reads_as(read, move_result(text@)),
{
    let mut positions: Vec<BoardPosition> = Vec::new();
    let mut errors: Vec<TokenError> = Vec::new();
    let mut word: Vec<Classified> = Vec::new();
    let ghost mut done: Seq<Seq<Classified>> = Seq::empty();
    let mut i: usize = 0;
    proof {
        assert(text@.skip(0) =~= text@);
        assert(done + split_words(text@, word@) =~= words(text@));
    }
    while i < text.len()
        invariant
            i <= text.len(),
            words(text@) == done + split_words(text@.skip(i as int), word@),
            forall|k: int| 0 <= k < done.len() ==> word_readable(#[trigger] done[k]),
            positions@ == positions_of(done),
            token_faults(errors@) == faults_of(done),
        decreases text.len() - i,
    {
        let ch = text[i];
        proof {
            assert(text@.skip(i as int)[0] == ch);
            assert(text@.skip(i as int).drop_first() =~= text@.skip(i + 1));
        }
        if ch.whitespace {
            if word.len() > 0 {
                let ghost ended = word@;
                proof {
                    assert(done + (finished(ended) + split_words(text@.skip(i + 1), Seq::empty()))
                        =~= done.push(ended) + split_words(text@.skip(i + 1), Seq::empty()));
                    assert(done.push(ended).drop_last() =~= done);
                    assert(words(text@)[done.len() as int] == ended);
                }
                match token_validator(&word) {
                    None => {
                        return None;
                    },
                    Some(Ok(position)) => {
                        positions.push(position);
                    },
                    Some(Err(error)) => {
                        let ghost before = errors@;
                        errors.push(error);
                        assert(token_faults(errors@) =~= token_faults(before).push(error@));
                    },
                }
                proof {
                    done = done.push(ended);
                }
                word = Vec::new();
            } else {
                assert(word@ =~= Seq::<Classified>::empty());
                assert(done + (finished(word@) + split_words(text@.skip(i + 1), Seq::empty()))
                    =~= done + split_words(text@.skip(i + 1), word@));
            }
        } else {
            word.push(ch);
        }
        i += 1;
    }
    if word.len() > 0 {
        let ghost ended = word@;
        proof {
            assert(done + finished(ended) =~= done.push(ended));
            assert(done.push(ended).drop_last() =~= done);
            assert(words(text@)[done.len() as int] == ended);
        }
        match token_validator(&word) {
            None => {
                return None;
            },
            Some(Ok(position)) => {
                positions.push(position);
            },
            Some(Err(error)) => {
                let ghost before = errors@;
                errors.push(error);
                assert(token_faults(errors@) =~= token_faults(before).push(error@));
            },
        }
        proof {
            done = done.push(ended);
        }
    } else {
        assert(done + finished(word@) =~= done);
    }
    assert(words(text@) == done);
    assert(token_faults(errors@).len() == errors@.len());

    if !errors.is_empty() {
        return Some(Err(InputError::InvalidTokens { tokens: errors }));
    }
    if positions.len() < 2 {
        return Some(Err(InputError::TooFewTokens));
    }
    Some(Ok(positions))
}

//
// Determines whether a position string is valid.
// Expects a strict sequence of alphabetic characters (file)
// followed by a sequence of numeric characters (rank).
// `None` where the numbers of the two cannot be had.
//
fn token_validator(token: &Vec<Classified>) -> (result: Option<Result<BoardPosition, TokenError>>)
    ensures
        result is Some == word_readable(token@),
        result matches Some(read) ==> match read {
            Ok(position) => word_result(token@) == Ok::<BoardPosition, TokenFault>(position),
            Err(error) => word_result(token@) == Err::<BoardPosition, TokenFault>(error@),
        },
{
    let (file, rank) = match parse_file_rank(token) {
        Ok(parts) => parts,
        Err(error) => {
            return Some(Err(error));
        },
    };

    if file.len() == 0 {
        return Some(Err(TokenError::MissingFile { token: spell(token) }));
    }
    if rank.len() == 0 {
        return Some(Err(TokenError::MissingRank { token: spell(token) }));
    }
    let row: usize = match file_to_row_position(&file) {
        Some(row) => row,
        None => {
            return None;
        },
    };
    let col: usize = match digits_to_number(&rank) {
        Some(col) => col,
        None => {
            return None;
        },
    };

    if col == 0 {
        return Some(Err(TokenError::ZeroRank { token: spell(token) }));
    }
    proof {
        lemma_file_value_grows(file@, 1);
        assert(file@.take(1).drop_last() =~= Seq::<Classified>::empty());
    }

    Some(Ok(BoardPosition::new(row - 1, col - 1)))
}

/// How many alphabetic characters a word starts with is no more than the
/// word has, and the character after them, if there is one, is not
/// alphabetic.
proof fn lemma_letters_len(word: Seq<Classified>)
    ensures
        letters_len(word) <= word.len(),
        letters_len(word) < word.len() ==> !word[letters_len(word) as int].alphabetic,
    decreases word.len(),
{
    if word.len() > 0 && word[0].alphabetic {
        lemma_letters_len(word.drop_first());
    }
}

proof fn lemma_digits_len(word: Seq<Classified>)
    ensures
        digits_len(word) <= word.len(),
        digits_len(word) < word.len() ==> !word[digits_len(word) as int].numeric,
    decreases word.len(),
{
    if word.len() > 0 && word[0].numeric {
        lemma_digits_len(word.drop_first());
    }
}

//
// Parse a string and return a tuple containing
// the file and rank, respectively
//
fn parse_file_rank(token: &Vec<Classified>) -> (result: Result<
    (Vec<Classified>, Vec<Classified>),
    TokenError,
>)
    ensures
        match result {
            Ok((file, rank)) => file_and_rank(token@) == Ok::<
                (Seq<Classified>, Seq<Classified>),
                int,
            >((file@, rank@)),
            Err(error) => file_and_rank(token@) matches Err(char_index) && error@
                == (TokenFault::InvalidCharacter { token: spelled(token@), char_index }),
        },
{
    let mut file: Vec<Classified> = Vec::new();
    let mut rank: Vec<Classified> = Vec::new();

    let mut index: usize = 0;
    proof {
        assert(token@.skip(0) =~= token@);
    }
    while index < token.len() && token[index].alphabetic
        invariant
            index <= token.len(),
            letters_len(token@) == index + letters_len(token@.skip(index as int)),
            file@ == token@.take(index as int),
        decreases token.len() - index,
    {
        proof {
            assert(token@.skip(index as int)[0] == token@[index as int]);
            assert(token@.skip(index as int).drop_first() =~= token@.skip(index + 1));
            assert(token@.take(index as int).push(token@[index as int]) =~= token@.take(index + 1));
        }
        file.push(token[index]);
        index += 1;
    }
    let letters: usize = index;
    proof {
        if index < token.len() {
            assert(token@.skip(index as int)[0] == token@[index as int]);
        }
        assert(letters_len(token@) == letters);
        assert(token@.skip(letters as int).skip(0) =~= token@.skip(letters as int));
    }
    while index < token.len() && token[index].numeric
        invariant
            letters <= index <= token.len(),
            digits_len(token@.skip(letters as int)) == (index - letters) + digits_len(
                token@.skip(index as int),
            ),
            rank@ == token@.subrange(letters as int, index as int),
        decreases token.len() - index,
    {
        proof {
            assert(token@.skip(index as int)[0] == token@[index as int]);
            assert(token@.skip(index as int).drop_first() =~= token@.skip(index + 1));
            assert(token@.subrange(letters as int, index as int).push(token@[index as int])
                =~= token@.subrange(letters as int, index + 1));
        }
        rank.push(token[index]);
        index += 1;
    }
    proof {
        if index < token.len() {
            assert(token@.skip(index as int)[0] == token@[index as int]);
        }
        assert(digits_len(token@.skip(letters as int)) == index - letters);
        assert(token@.subrange(letters as int, token@.len() as int) =~= token@.skip(letters as int));
    }
    if index < token.len() {
        return Err(TokenError::InvalidCharacter { token: spell(token), char_index: index });
    }
    Ok((file, rank))
}

/// Of a file made of letters, every beginning stands for a number that is
/// no greater than that of the whole, and a beginning that is not empty for
/// a number that is at least 1.
proof fn lemma_file_value_grows(file: Seq<Classified>, count: int)
    requires
        all_letters(file),
        0 <= count <= file.len(),
    ensures
        0 <= file_value(file.take(count)) <= file_value(file),
        count >= 1 ==> 1 <= file_value(file.take(count)),
    decreases file.len(),
{
    if file.len() == 0 {
        assert(file.take(count) =~= file);
    } else if count == file.len() {
        assert(file.take(count) =~= file);
        lemma_file_value_grows(file.drop_last(), count - 1);
        assert(file.drop_last().take(count - 1) =~= file.drop_last());
        assert(is_letter(file.last().ch));
    } else {
        lemma_file_value_grows(file.drop_last(), count);
        assert(file.drop_last().take(count) =~= file.take(count));
        assert(is_letter(file.last().ch));
    }
}

/// Of a rank made of digits, every beginning stands for a number that is no
/// greater than that of the whole.
proof fn lemma_rank_value_grows(rank: Seq<Classified>, count: int)
    requires
        all_digits(rank),
        0 <= count <= rank.len(),
    ensures
        0 <= rank_value(rank.take(count)) <= rank_value(rank),
    decreases rank.len(),
{
    if rank.len() == 0 {
        assert(rank.take(count) =~= rank);
    } else if count == rank.len() {
        assert(rank.take(count) =~= rank);
        lemma_rank_value_grows(rank.drop_last(), count - 1);
        assert(rank.drop_last().take(count - 1) =~= rank.drop_last());
        assert(is_digit(rank.last().ch));
    } else {
        lemma_rank_value_grows(rank.drop_last(), count);
        assert(rank.drop_last().take(count) =~= rank.take(count));
        assert(is_digit(rank.last().ch));
    }
}

//
// Convert string of alphabetic characters to a number;
// `None` where a character is no letter or the number is too great
//
fn file_to_row_position(file: &Vec<Classified>) -> (row: Option<usize>)
    ensures
        row is Some == (all_letters(file@) && file_value(file@) <= usize::MAX),
        row matches Some(value) ==> value == file_value(file@),
{
    let mut row_index: usize = 0;
    let alphabet_length: usize = 26;

    let mut i: usize = 0;
    proof {
        assert(file@.take(0).len() == 0);
    }
    while i < file.len()
        invariant
            i <= file.len(),
            alphabet_length == 26,
            all_letters(file@.take(i as int)),
            row_index == file_value(file@.take(i as int)),
        decreases file.len() - i,
    {
        let c = file[i].ch;
        let position: usize = match char_to_position(c) {
            Some(position) => position,
            None => {
                return None;
            },
        };
        proof {
            assert(file@.take(i + 1).drop_last() =~= file@.take(i as int));
            assert(file@.take(i + 1).last().ch == c);
            assert forall|k: int| 0 <= k < i + 1 implies is_letter(
                (#[trigger] file@.take(i + 1)[k]).ch,
            ) by {
                if k < i {
                    assert(file@.take(i as int)[k] == file@[k]);
                }
            }
        }
        if row_index > (usize::MAX - position) / alphabet_length {
            proof {
                assert(file_value(file@.take(i + 1)) > usize::MAX);
                if all_letters(file@) {
                    lemma_file_value_grows(file@, i + 1);
                }
            }
            return None;
        }
        row_index = alphabet_length * row_index + position;
        i += 1;
    }
    proof {
        assert(file@.take(file@.len() as int) =~= file@);
    }

    Some(row_index)
}

//
// Convert a single alphabetic character to number
// Case insensitive [a-z] -> [1-26]; `None` for any other character
//
fn char_to_position(c: char) -> (position: Option<usize>)
    ensures
        position is Some == is_letter(c),
        position matches Some(value) ==> value == letter_value(c) && 1 <= value <= 26,
{
    if 'A' <= c && c <= 'Z' {
        Some((c as u32 - 'A' as u32) as usize + 1)
    } else if 'a' <= c && c <= 'z' {
        Some((c as u32 - 'a' as u32) as usize + 1)
    } else {
        None
    }
}

//
// Convert string of digits to a number;
// `None` where a character is no digit or the number is too great
//
fn digits_to_number(rank: &Vec<Classified>) -> (number: Option<usize>)
    ensures
        number is Some == (all_digits(rank@) && rank_value(rank@) <= usize::MAX),
        number matches Some(value) ==> value == rank_value(rank@),
{
    let mut number: usize = 0;

    let mut i: usize = 0;
    proof {
        assert(rank@.take(0).len() == 0);
    }
    while i < rank.len()
        invariant
            i <= rank.len(),
            all_digits(rank@.take(i as int)),
            number == rank_value(rank@.take(i as int)),
        decreases rank.len() - i,
    {
        let c = rank[i].ch;
        if !('0' <= c && c <= '9') {
            return None;
        }
        let digit: usize = (c as u32 - '0' as u32) as usize;
        proof {
            assert(rank@.take(i + 1).drop_last() =~= rank@.take(i as int));
            assert(rank@.take(i + 1).last().ch == c);
            assert forall|k: int| 0 <= k < i + 1 implies is_digit(
                (#[trigger] rank@.take(i + 1)[k]).ch,
            ) by {
                if k < i {
                    assert(rank@.take(i as int)[k] == rank@[k]);
                }
            }
        }
        if number > (usize::MAX - digit) / 10 {
            proof {
                assert(rank_value(rank@.take(i + 1)) > usize::MAX);
                if all_digits(rank@) {
                    lemma_rank_value_grows(rank@, i + 1);
                }
            }
            return None;
        }
        number = 10 * number + digit;
        i += 1;
    }
    proof {
        assert(rank@.take(rank@.len() as int) =~= rank@);
    }

    Some(number)
}

} // verus!
