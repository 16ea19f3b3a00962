//! The name of a TypeScript type for a name taken from a schema: letters
//! without accents, no character that an identifier cannot hold, and the
//! words run together with each word's first letter in upper case.

use vstd::prelude::*;
use vstd::string::StrSliceExecFns;
use super::strings_for_code::{push_char, upper_ascii_char, upper_first};

verus! {

/// The text in ASCII letters, as `deunicode` transliterates it, with the
/// replacement character U+FFFD for each character that it does not know.
pub uninterp spec fn deunicoded(text: Seq<char>) -> Seq<char>;

/// `deunicode_with_tofu` of `deunicode`, with U+FFFD as the placeholder for
/// a character that the crate knows no transliteration of.
#[verifier::external_body]
fn deunicode_text(text: &str) -> (plain: String)
    ensures
        plain@ == deunicoded(text@),
{
    deunicode::deunicode_with_tofu(text, "\u{FFFD}")
}

/// A character with which an identifier may start: a letter, `_` or `$`.
pub open spec fn is_name_start(c: char) -> bool {
    is_letter(c) || c == '_' || c == '$'
}

/// An ASCII letter.
pub open spec fn is_letter(c: char) -> bool {
    is_lower(c) || ('A' <= c <= 'Z')
}

/// An ASCII lower-case letter.
pub open spec fn is_lower(c: char) -> bool {
    'a' <= c <= 'z'
}

/// An ASCII digit.
pub open spec fn is_digit(c: char) -> bool {
    '0' <= c <= '9'
}

/// An ASCII white-space character: a blank, or one of tab, line feed,
/// vertical tab, form feed and carriage return.
pub open spec fn is_space(c: char) -> bool {
    c == ' ' || ('\t' <= c <= '\r')
}

/// The number of white-space characters with which the text starts.
pub open spec fn leading_spaces(text: Seq<char>) -> nat
    decreases text.len(),
{
    if text.len() > 0 && is_space(text[0]) {
        1 + leading_spaces(text.skip(1))
    } else {
        0
    }
}

/// The length of what stands at the start of the text and cannot start an
/// identifier: the white space there, and the character after it unless it
/// is a letter, `_` or `$`.
pub open spec fn invalid_start_len(text: Seq<char>) -> nat {
    let spaces = leading_spaces(text);
    if spaces < text.len() && !is_name_start(text[spaces as int]) {
        spaces + 1
    } else {
        spaces
    }
}

/// A character that an identifier may hold as it is, and a blank for any
/// other.
pub open spec fn kept_or_blank(c: char) -> char {
    if is_name_start(c) || is_digit(c) {
        c
    } else {
        ' '
    }
}

/// The text with a blank for what cannot stand in an identifier: one blank
/// for what stands at the start and cannot start one, and a blank for each
/// later character that is no letter, digit, `_` or `$`.
pub open spec fn blanked(text: Seq<char>) -> Seq<char> {
    let start = invalid_start_len(text);
    (if start > 0 {
        seq![' ']
    } else {
        Seq::<char>::empty()
    }) + Seq::new((text.len() - start) as nat, |i: int| kept_or_blank(text[start + i]))
}

/// The text with the letter after a leading underscore in upper case.
pub open spec fn leading_underscore_raised(text: Seq<char>) -> Seq<char> {
    if text.len() >= 2 && text[0] == '_' && is_lower(text[1]) {
        text.update(1, upper_ascii_char(text[1]))
    } else {
        text
    }
}

/// The text without the underscores that a lower-case letter follows, and
/// with each such letter in upper case; read from the left, so that an
/// underscore and its letter are taken together.
pub open spec fn underscores_joined(text: Seq<char>) -> Seq<char>
    decreases text.len(),
{
    if text.len() == 0 {
        text
    } else if text.len() >= 2 && text[0] == '_' && is_lower(text[1]) {
        seq![upper_ascii_char(text[1])] + underscores_joined(text.skip(2))
    } else {
        seq![text[0]] + underscores_joined(text.skip(1))
    }
}

/// The text with each letter in upper case that follows a digit or `$`.
pub open spec fn raised_after_digits(text: Seq<char>) -> Seq<char> {
    Seq::new(
        text.len(),
        |i: int|
            if i > 0 && (is_digit(text[i - 1]) || text[i - 1] == '$') && is_letter(text[i]) {
                upper_ascii_char(text[i])
            } else {
                text[i]
            },
    )
}

/// The text without its white space, and with each letter in upper case
/// that followed white space. `after_space` says whether white space came
/// just before the text.
pub open spec fn words_joined(text: Seq<char>, after_space: bool) -> Seq<char>
    decreases text.len(),
{
    if text.len() == 0 {
        text
    } else if is_space(text[0]) {
        words_joined(text.skip(1), true)
    } else if after_space && is_letter(text[0]) {
        seq![upper_ascii_char(text[0])] + words_joined(text.skip(1), false)
    } else {
        seq![text[0]] + words_joined(text.skip(1), false)
    }
}

/// The name of the type for plain text: what cannot stand in an identifier
/// is blanked, underscores before lower-case letters are taken out, and a
/// letter is in upper case where it starts the name or follows an
/// underscore that was taken out, a digit, `$` or white space; no white
/// space is left.
pub open spec fn plain_name_of_type(text: Seq<char>) -> Seq<char> {
    upper_first(
        words_joined(
            raised_after_digits(underscores_joined(leading_underscore_raised(blanked(text)))),
            false,
        ),
    )
}

/// The name of the type for a name taken from a schema: that of the text
/// as `deunicode` gives it, which holds ASCII characters and the
/// replacement character only, so that the letters, digits and white space
/// of ASCII are all that there are.
pub open spec fn name_of_type(text: Seq<char>) -> Seq<char> {
    plain_name_of_type(deunicoded(text))
}

/// The characters of the text.
pub(crate) fn chars_of(text: &str) -> (chars: Vec<char>)
    ensures
        chars@ == text@,
{
    let len = text.unicode_len();
    let mut chars: Vec<char> = Vec::new();
    let mut i: usize = 0;
    while i < len
        invariant
            i <= len,
            len == text@.len(),
            chars@ == text@.subrange(0, i as int),
        decreases len - i,
    {
        chars.push(text.get_char(i));
        assert(chars@ =~= text@.subrange(0, i + 1));
        i += 1;
    }
    assert(chars@ =~= text@);
    chars
}

/// The text of the characters.
pub(crate) fn text_of(chars: &Vec<char>) -> (text: String)
    ensures
        text@ == chars@,
{
    let mut text = String::new();
    let mut i: usize = 0;
    while i < chars.len()
        invariant
            i <= chars.len(),
            text@ == chars@.subrange(0, i as int),
        decreases chars.len() - i,
    {
        push_char(&mut text, chars[i]);
        assert(text@ =~= chars@.subrange(0, i + 1));
        i += 1;
    }
    assert(text@ =~= chars@);
    text
}

fn is_lower_char(c: char) -> (lower: bool)
    ensures
        lower == is_lower(c),
{
    c >= 'a' && c <= 'z'
}

fn is_letter_char(c: char) -> (letter: bool)
    ensures
        letter == is_letter(c),
{
    is_lower_char(c) || (c >= 'A' && c <= 'Z')
}

fn is_digit_char(c: char) -> (digit: bool)
    ensures
        digit == is_digit(c),
{
    c >= '0' && c <= '9'
}

fn is_space_char(c: char) -> (space: bool)
    ensures
        space == is_space(c),
{
    c == ' ' || (c >= '\t' && c <= '\r')
}

fn is_name_start_char(c: char) -> (start: bool)
    ensures
        start == is_name_start(c),
{
    is_letter_char(c) || c == '_' || c == '$'
}

fn upper_char(c: char) -> (upper: char)
    ensures
        upper == upper_ascii_char(c),
{
    if is_lower_char(c) {
        ((c as u8) - 32) as char
    } else {
        c
    }
}

/// The white space at the start of what is left after `from` characters is
/// the white space at the start of the text, less those characters, where
/// they are all white space.
proof fn lemma_leading_spaces_step(text: Seq<char>, from: nat)
    requires
        from <= text.len(),
        forall|i: int| 0 <= i < from ==> is_space(text[i]),
    ensures
        leading_spaces(text) == from + leading_spaces(text.skip(from as int)),
    decreases from,
{
    if from == 0 {
        assert(text.skip(0) =~= text);
    } else {
        lemma_leading_spaces_step(text.skip(1), (from - 1) as nat);
        assert(text.skip(1).skip(from - 1) =~= text.skip(from as int));
    }
}

fn blank_invalid(text: &Vec<char>) -> (out: Vec<char>)
    ensures
        out@ == blanked(text@),
{
    let len = text.len();
    let mut spaces: usize = 0;
    while spaces < len && is_space_char(text[spaces])
        invariant
            spaces <= len,
            len == text@.len(),
            forall|i: int| 0 <= i < spaces ==> is_space(text@[i]),
        decreases len - spaces,
    {
        spaces += 1;
    }
    proof {
        lemma_leading_spaces_step(text@, spaces as nat);
        assert(leading_spaces(text@.skip(spaces as int)) == 0);
    }
    let start: usize = if spaces < len && !is_name_start_char(text[spaces]) {
        spaces + 1
    } else {
        spaces
    };
    assert(start == invalid_start_len(text@));
    let mut out: Vec<char> = Vec::new();
    if start > 0 {
        out.push(' ');
    }
    let ghost head = out@;
    let mut i: usize = start;
    while i < len
        invariant
            start <= i <= len,
            len == text@.len(),
            out@ == head + Seq::new((i - start) as nat, |j: int| kept_or_blank(text@[start + j])),
        decreases len - i,
    {
        let c = text[i];
        if is_name_start_char(c) || is_digit_char(c) {
            out.push(c);
        } else {
            out.push(' ');
        }
        assert(out@ =~= head + Seq::new(
            (i + 1 - start) as nat,
            |j: int| kept_or_blank(text@[start + j]),
        ));
        i += 1;
    }
    assert(out@ =~= blanked(text@));
    out
}

fn raise_leading_underscore(text: Vec<char>) -> (out: Vec<char>)
    ensures
        out@ == leading_underscore_raised(text@),
{
    let mut out = text;
    if out.len() >= 2 && out[0] == '_' && is_lower_char(out[1]) {
        let upper = upper_char(out[1]);
        out.set(1, upper);
    }
    out
}

fn join_underscores(text: &Vec<char>) -> (out: Vec<char>)
    ensures
        out@ == underscores_joined(text@),
{
    let len = text.len();
    let mut out: Vec<char> = Vec::new();
    let mut i: usize = 0;
    assert(text@.skip(0) =~= text@);
    while i < len
        invariant
            i <= len,
            len == text@.len(),
            out@ + underscores_joined(text@.skip(i as int)) == underscores_joined(text@),
        decreases len - i,
    {
        let ghost rest = text@.skip(i as int);
        let ghost before = out@;
        if i + 1 < len && text[i] == '_' && is_lower_char(text[i + 1]) {
            out.push(upper_char(text[i + 1]));
            proof {
                assert(rest.skip(2) =~= text@.skip(i + 2));
                assert(out@ + underscores_joined(text@.skip(i + 2)) =~= before
                    + underscores_joined(rest));
            }
            i += 2;
        } else {
            out.push(text[i]);
            proof {
                assert(rest.skip(1) =~= text@.skip(i + 1));
                assert(out@ + underscores_joined(text@.skip(i + 1)) =~= before
                    + underscores_joined(rest));
            }
            i += 1;
        }
    }
    assert(out@ =~= out@ + underscores_joined(text@.skip(i as int)));
    out
}

fn raise_after_digits(text: &Vec<char>) -> (out: Vec<char>)
    ensures
        out@ == raised_after_digits(text@),
{
    let len = text.len();
    let mut out: Vec<char> = Vec::new();
    let mut i: usize = 0;
    while i < len
        invariant
            i <= len,
            len == text@.len(),
            out@ == raised_after_digits(text@).subrange(0, i as int),
        decreases len - i,
    {
        let c = text[i];
        if i > 0 && (is_digit_char(text[i - 1]) || text[i - 1] == '$') && is_letter_char(c) {
            out.push(upper_char(c));
        } else {
            out.push(c);
        }
        assert(out@ =~= raised_after_digits(text@).subrange(0, i + 1));
        i += 1;
    }
    assert(out@ =~= raised_after_digits(text@));
    out
}

fn join_words(text: &Vec<char>) -> (out: Vec<char>)
    ensures
        out@ == words_joined(text@, false),
{
    let len = text.len();
    let mut out: Vec<char> = Vec::new();
    let mut after_space = false;
    let mut i: usize = 0;
    assert(text@.skip(0) =~= text@);
    while i < len
        invariant
            i <= len,
            len == text@.len(),
            out@ + words_joined(text@.skip(i as int), after_space) == words_joined(text@, false),
        decreases len - i,
    {
        let ghost rest = text@.skip(i as int);
        let ghost before = out@;
        let ghost was_after = after_space;
        let c = text[i];
        assert(rest.skip(1) =~= text@.skip(i + 1));
        if is_space_char(c) {
            after_space = true;
        } else {
            if after_space && is_letter_char(c) {
                out.push(upper_char(c));
            } else {
                out.push(c);
            }
            after_space = false;
        }
        assert(out@ + words_joined(text@.skip(i + 1), after_space) =~= before + words_joined(
            rest,
            was_after,
        ));
        i += 1;
    }
    assert(out@ =~= out@ + words_joined(text@.skip(i as int), after_space));
    out
}

fn raise_first(text: Vec<char>) -> (out: Vec<char>)
    ensures
        out@ == upper_first(text@),
{
    let mut out = text;
    if out.len() > 0 {
        let upper = upper_char(out[0]);
        out.set(0, upper);
        assert(out@ =~= upper_first(text@));
    }
    out
}

/// The name of the TypeScript type for a name taken from a schema.
pub fn make_type_name(text: &str) -> (name: String)
    ensures
        name@ == name_of_type(text@),
{
    let plain = deunicode_text(text);
    let chars = chars_of(plain.as_str());
    let blanked = blank_invalid(&chars);
    let raised = raise_leading_underscore(blanked);
    let joined = join_underscores(&raised);
    let raised = raise_after_digits(&joined);
    let words = join_words(&raised);
    let name = raise_first(words);
    text_of(&name)
}

} // verus!
