//! Character properties and string building that come from the standard
//! library. Nothing in this file is proved: the contracts of the standard
//! functions are taken on trust, and the rest of the crate is verified
//! against them.

use vstd::prelude::*;

verus! {

/// Whether `c` has the Unicode property `Alphabetic`.
pub uninterp spec fn alphabetic(c: char) -> bool;

/// Whether `c` is alphabetic or numeric in the sense of Unicode.
pub uninterp spec fn alphanumeric(c: char) -> bool;

/// Whether `c` has the Unicode property `White_Space`.
pub uninterp spec fn white_space(c: char) -> bool;

/// `char::is_alphabetic` looks the character up in the Unicode tables; the
/// answer depends on the character alone and is called `alphabetic(c)` here.
pub assume_specification[ char::is_alphabetic ](c: char) -> (r: bool)
    ensures
        r == alphabetic(c),
;

/// `char::is_alphanumeric` looks the character up in the Unicode tables; the
/// answer depends on the character alone and is called `alphanumeric(c)` here.
pub assume_specification[ char::is_alphanumeric ](c: char) -> (r: bool)
    ensures
        r == alphanumeric(c),
;

/// `char::is_whitespace` looks the character up in the Unicode tables; the
/// answer depends on the character alone and is called `white_space(c)` here.
pub assume_specification[ char::is_whitespace ](c: char) -> (r: bool)
    ensures
        r == white_space(c),
;

/// `String::push` appends one character to the end of the string and leaves
/// the characters before it as they were.
pub assume_specification[ String::push ](s: &mut String, ch: char)
    ensures
        final(s)@ == old(s)@.push(ch),
;

/// A character together with the Unicode properties that the tokenizer reads.
#[derive(Debug, Clone, Copy, PartialEq, Eq, Structural)]
pub struct ClassifiedChar {
    pub ch: char,
    pub alphabetic: bool,
    pub alphanumeric: bool,
    pub whitespace: bool,
}

/// The character `c` with its own Unicode properties.
pub open spec fn classified(c: char) -> ClassifiedChar {
    ClassifiedChar {
        ch: c,
        alphabetic: alphabetic(c),
        alphanumeric: alphanumeric(c),
        whitespace: white_space(c),
    }
}

/// Every character of `text` with its own Unicode properties.
pub open spec fn classified_text(text: Seq<char>) -> Seq<ClassifiedChar> {
    Seq::new(text.len(), |i: int| classified(text[i]))
}

/// The characters of `s`, without their properties.
pub open spec fn chars_of(s: Seq<ClassifiedChar>) -> Seq<char> {
    Seq::new(s.len(), |i: int| s[i].ch)
}

/// Looks up the Unicode properties of one character.
pub fn classify_char(c: char) -> (r: ClassifiedChar)
    ensures
        r == classified(c),
{
    ClassifiedChar {
        ch: c,
        alphabetic: c.is_alphabetic(),
        alphanumeric: c.is_alphanumeric(),
        whitespace: c.is_whitespace(),
    }
}

/// Looks up the Unicode properties of every character of `text`.
pub fn classify(text: &str) -> (r: Vec<ClassifiedChar>)
    ensures
        r@ == classified_text(text@),
{
    let mut r: Vec<ClassifiedChar> = Vec::new();
    for c in it: text.chars()
        invariant
            r@ == classified_text(it.seq().take(it.index() as int)),
    {
        r.push(classify_char(c));
    }
    r
}

/// The characters of `chars` as a string.
pub fn text_of(chars: &[ClassifiedChar]) -> (r: String)
    ensures
        r@ == chars_of(chars@),
{
    let mut r = String::new();
    let mut i: usize = 0;
    while i < chars.len()
        invariant
            i <= chars.len(),
            r@ == chars_of(chars@.take(i as int)),
        decreases chars.len() - i,
    {
        r.push(chars[i].ch);
        i += 1;
    }
    proof {
        assert(chars@.take(i as int) =~= chars@);
    }
    r
}

} // verus!
