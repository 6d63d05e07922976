use vstd::prelude::*;

verus! {

/// Whether std counts a character as alphabetic.
pub uninterp spec fn alphabetic(ch: char) -> bool;

/// Whether std counts a character as numeric.
pub uninterp spec fn numeric(ch: char) -> bool;

/// Whether std counts a character as white space.
pub uninterp spec fn whitespace(ch: char) -> bool;

/// `char::is_alphabetic` of std tells whether a character has the Unicode
/// property Alphabetic. The answer depends on the character alone, and is
/// known here by the name `alphabetic` only.
pub assume_specification[ char::is_alphabetic ](ch: char) -> (answer: bool)
    ensures
        answer == alphabetic(ch),
;

/// `char::is_numeric` of std tells whether a character is in one of the
/// Unicode categories of numbers. The answer depends on the character alone,
/// and is known here by the name `numeric` only.
pub assume_specification[ char::is_numeric ](ch: char) -> (answer: bool)
    ensures
        answer == numeric(ch),
;

/// `char::is_whitespace` of std tells whether a character has the Unicode
/// property White_Space. The answer depends on the character alone, and is
/// known here by the name `whitespace` only.
pub assume_specification[ char::is_whitespace ](ch: char) -> (answer: bool)
    ensures
        answer == whitespace(ch),
;

/// `String::push` of std appends a character: after the call the string
/// holds what it held before, and the character after it.
pub assume_specification[ String::push ](text: &mut String, ch: char)
    ensures
        final(text)@ == old(text)@.push(ch),
;

/// `char::from_u32` of std gives the character with the given code, and
/// `None` where no character has that code: for the codes of the surrogate
/// range and for those beyond `0x10FFFF`.
pub assume_specification[ char::from_u32 ](code: u32) -> (ch: Option<char>)
    ensures
        ch == if code < 0xD800 || (0xE000 <= code && code <= 0x10FFFF) {
            Some(code as char)
        } else {
            None
        },
;

/// A character, with what std says of it: whether it is alphabetic,
/// numeric, white space.
#[derive(Clone, Copy, Debug, PartialEq, Eq, Structural)]
pub struct Classified {
    pub ch: char,
    pub alphabetic: bool,
    pub numeric: bool,
    pub whitespace: bool,
}

/// A character as std classifies it.
pub open spec fn classified(ch: char) -> Classified {
    Classified { ch, alphabetic: alphabetic(ch), numeric: numeric(ch), whitespace: whitespace(ch) }
}

/// The characters of a text as std classifies them, one after the other.
pub open spec fn classified_text(text: Seq<char>) -> Seq<Classified> {
    Seq::new(text.len(), |i: int| classified(text[i]))
}

/// The characters that classified characters spell.
pub open spec fn spelled(chars: Seq<Classified>) -> Seq<char> {
    Seq::new(chars.len(), |i: int| chars[i].ch)
}

/// Classifies the characters of a text, one after the other.
pub fn classify(text: &str) -> (chars: Vec<Classified>)
    ensures
        chars@ == classified_text(text@),
{
    let mut chars: Vec<Classified> = Vec::new();
    for ch in it: text.chars()
        invariant
            it.seq() == text@,
            chars@ == classified_text(it.seq().take(it.index() as int)),
    {
        let ghost before = chars@;
        let next = Classified {
            ch,
            alphabetic: ch.is_alphabetic(),
            numeric: ch.is_numeric(),
            whitespace: ch.is_whitespace(),
        };
        chars.push(next);
        proof {
            let read = it.seq().take(it.index() as int);
            let longer = it.seq().take(it.index() + 1);
            assert(next == classified(ch));
            assert(longer[it.index() as int] == ch);
            assert forall|k: int| 0 <= k < longer.len() implies chars@[k] == classified(
                longer[k],
            ) by {
                if k < it.index() {
                    assert(chars@[k] == before[k]);
                    assert(before[k] == classified(read[k]));
                    assert(read[k] == longer[k]);
                }
            }
            assert(chars@ =~= classified_text(longer));
        }
    }
    assert(text@.take(text@.len() as int) =~= text@);
    chars
}

/// The text that classified characters spell.
pub fn spell(chars: &Vec<Classified>) -> (text: String)
    ensures
        text@ == spelled(chars@),
{
    let mut text = String::new();
    let mut i: usize = 0;
    while i < chars.len()
        invariant
            i <= chars.len(),
            text@ == spelled(chars@.take(i as int)),
        decreases chars.len() - i,
    {
        text.push(chars[i].ch);
        assert(text@ =~= spelled(chars@.take(i + 1)));
        i += 1;
    }
    assert(chars@.take(chars.len() as int) =~= chars@);
    text
}

} // verus!
