//! The patterns of the tokens, and that the lexer finds the longest match.

use crate::chars::CharClass;
use crate::lexer::PythonToken;
use vstd::prelude::*;

verus! {

/// The characters from `start` up to `end` are of a class, and there are some.
pub open spec fn run(text: Seq<char>, start: int, end: int, class: CharClass) -> bool {
    start < end && forall|k: int| start <= k < end ==> class.has(#[trigger] text[k])
}

/// A letter or an underscore, and letters, digits and underscores behind it.
pub open spec fn identifier(text: Seq<char>, start: int, end: int) -> bool {
    crate::chars::letter(text[start]) && run(text, start, end, CharClass::Word)
}

/// `0x`, and hexadecimal digits behind it.
pub open spec fn hex_number(text: Seq<char>, start: int, end: int) -> bool {
    &&& start + 2 < end
    &&& text[start] == '0'
    &&& text[start + 1] == 'x' || text[start + 1] == 'X'
    &&& run(text, start + 2, end, CharClass::HexDigit)
}

/// A dot, and digits behind it.
pub open spec fn fraction(text: Seq<char>, start: int, end: int) -> bool {
    start < end && text[start] == '.' && run(text, start + 1, end, CharClass::Digit)
}

/// An `e`, a sign or none, and digits behind it.
pub open spec fn exponent(text: Seq<char>, start: int, end: int) -> bool {
    &&& start + 1 < end
    &&& text[start] == 'e' || text[start] == 'E'
    &&& {
        ||| run(text, start + 1, end, CharClass::Digit)
        ||| (text[start + 1] == '+' || text[start + 1] == '-') && run(
            text,
            start + 2,
            end,
            CharClass::Digit,
        )
    }
}

/// Digits up to `whole`, a fraction or none up to `scale`, and an exponent or none.
pub open spec fn decimal_parts(text: Seq<char>, start: int, whole: int, scale: int, end: int)
    -> bool {
    &&& run(text, start, whole, CharClass::Digit)
    &&& whole == scale || fraction(text, whole, scale)
    &&& scale == end || exponent(text, scale, end)
}

pub open spec fn decimal_number(text: Seq<char>, start: int, end: int) -> bool {
    exists|whole: int, scale: int| decimal_parts(text, start, whole, scale, end)
}

/// Characters other than the quote, each backslash with one that it escapes in its
/// line.
pub open spec fn quoted(text: Seq<char>, start: int, end: int, quote: char) -> bool
    decreases end - start,
{
    if start >= end {
        start == end
    } else if text[start] == '\\' {
        start + 1 < end && text[start + 1] != '\n' && quoted(text, start + 2, end, quote)
    } else {
        text[start] != quote && quoted(text, start + 1, end, quote)
    }
}

/// A text in quotes.
pub open spec fn string(text: Seq<char>, start: int, end: int) -> bool {
    &&& start + 1 < end
    &&& crate::chars::quote(text[start])
    &&& text[end - 1] == text[start]
    &&& quoted(text, start + 1, end - 1, text[start])
}

/// The characters from `start` up to `end` have the form of a token.
pub open spec fn matches(token: PythonToken, text: Seq<char>, start: int, end: int) -> bool {
    &&& 0 <= start < end <= text.len()
    &&& match token {
        PythonToken::Keyword => crate::lexer::keyword(text.subrange(start, end)),
        PythonToken::Ident => identifier(text, start, end),
        PythonToken::Number => hex_number(text, start, end) || decimal_number(text, start, end),
        PythonToken::String => string(text, start, end),
        PythonToken::Comment => text[start] == '#' && run(text, start, end, CharClass::Line),
        PythonToken::Punctuation => end == start + 1 && crate::chars::punctuation(text[start]),
        PythonToken::Whitespace => run(text, start, end, CharClass::Blank),
    }
}

/// A keyword has the form of an identifier.
proof fn keywords_are_words(text: Seq<char>, start: int, end: int)
    requires
        0 <= start < end <= text.len(),
        crate::lexer::keyword(text.subrange(start, end)),
    ensures
        identifier(text, start, end),
{
    reveal_strlit("def");
    reveal_strlit("class");
    reveal_strlit("if");
    reveal_strlit("else");
    reveal_strlit("elif");
    reveal_strlit("for");
    reveal_strlit("while");
    reveal_strlit("try");
    reveal_strlit("except");
    reveal_strlit("finally");
    reveal_strlit("with");
    reveal_strlit("as");
    reveal_strlit("return");
    reveal_strlit("break");
    reveal_strlit("continue");
    reveal_strlit("pass");
    reveal_strlit("import");
    reveal_strlit("from");
    reveal_strlit("in");
    reveal_strlit("is");
    reveal_strlit("and");
    reveal_strlit("or");
    reveal_strlit("not");
    reveal_strlit("global");
    reveal_strlit("nonlocal");
    reveal_strlit("lambda");
    reveal_strlit("yield");
    reveal_strlit("raise");
    reveal_strlit("assert");
    reveal_strlit("del");
    reveal_strlit("True");
    reveal_strlit("False");
    reveal_strlit("None");
    let word = text.subrange(start, end);
    assert(forall|k: int| 0 <= k < word.len() ==> crate::chars::letter(#[trigger] word[k]));
    assert forall|k: int| start <= k < end implies CharClass::Word.has(#[trigger] text[k]) by {
        assert(word[k - start] == text[k]);
    }
    assert(word[0] == text[start]);
}

/// A run from `start` ends no later than the longest one.
proof fn runs_end_with_the_longest(text: Seq<char>, start: int, end: int, class: CharClass)
    requires
        0 <= start < end <= text.len(),
        run(text, start, end, class),
    ensures
        end <= crate::chars::run_end(text, start, class),
{
    let longest = crate::chars::run_end(text, start, class);
    crate::chars::run_is_maximal(text, start, class);
    if longest < end {
        assert(class.has(text[longest]));
    }
}

/// No sign, dot or letter is a digit.
proof fn digits_are_told_apart(c: char)
    ensures
        crate::chars::decimal_digit(c) ==> {
            &&& c != '.' && c != 'e' && c != 'E' && c != 'x' && c != 'X' && c != '+' && c != '-'
            &&& c != '#' && !crate::chars::letter(c) && !crate::chars::quote(c)
            &&& !crate::chars::punctuation(c) && !crate::chars::blank(c)
        },
        '0' <= c <= '9' ==> crate::chars::decimal_digit(c),
{
    if '0' <= c <= '9' {
        assert(crate::chars::DIGIT_ZEROS@[0] == 48);
    }
}

/// A string ends where its quoted text stops.
proof fn quoted_text_ends_the_string(text: Seq<char>, start: int, end: int, quote: char)
    requires
        0 <= start <= end < text.len(),
        quoted(text, start, end, quote),
        text[end] == quote,
        quote != '\\',
    ensures
        crate::lexer::quoted_end(text, start, quote) == end,
    decreases end - start,
{
    if start < end {
        if text[start] == '\\' {
            quoted_text_ends_the_string(text, start + 2, end, quote);
        } else {
            quoted_text_ends_the_string(text, start + 1, end, quote);
        }
    }
}

/// What lies before the place where quoted text stops is quoted.
pub proof fn stopped_text_is_quoted(text: Seq<char>, start: int, quote: char)
    requires
        0 <= start <= text.len(),
        quote != '\\',
    ensures
        start <= crate::lexer::quoted_end(text, start, quote) <= text.len(),
        quoted(text, start, crate::lexer::quoted_end(text, start, quote), quote),
    decreases text.len() - start,
{
    if start < text.len() && text[start] != quote {
        if text[start] == '\\' {
            if start + 1 < text.len() && text[start + 1] != '\n' {
                stopped_text_is_quoted(text, start + 2, quote);
            }
        } else {
            stopped_text_is_quoted(text, start + 1, quote);
        }
    }
}

/// The end of a number is the end of a number in one of its forms.
proof fn number_has_its_form(text: Seq<char>, start: int)
    requires
        0 <= start < text.len(),
        crate::chars::decimal_digit(text[start]),
    ensures
        matches(PythonToken::Number, text, start, crate::lexer::number_end(text, start)),
{
    let end = crate::lexer::number_end(text, start);
    if crate::lexer::hex_number_at(text, start) {
        crate::chars::run_is_maximal(text, start + 2, CharClass::HexDigit);
        crate::chars::run_is_maximal(text, start + 3, CharClass::HexDigit);
        assert(hex_number(text, start, end));
    } else {
        let whole = crate::chars::run_end(text, start, CharClass::Digit);
        crate::chars::run_is_maximal(text, start, CharClass::Digit);
        crate::chars::run_is_maximal(text, start + 1, CharClass::Digit);
        let scale = crate::lexer::fraction_end(text, whole);
        if scale != whole {
            crate::chars::run_is_maximal(text, whole + 1, CharClass::Digit);
            crate::chars::run_is_maximal(text, whole + 2, CharClass::Digit);
            assert(fraction(text, whole, scale));
        }
        if end != scale {
            let digits = crate::lexer::exponent_digits(text, scale);
            crate::chars::run_is_maximal(text, digits, CharClass::Digit);
            crate::chars::run_is_maximal(text, digits + 1, CharClass::Digit);
            assert(exponent(text, scale, end));
        }
        assert(decimal_parts(text, start, whole, scale, end));
    }
}

/// No number from `start` on is longer than the one that the lexer takes.
proof fn number_is_the_longest(text: Seq<char>, start: int, end: int)
    requires
        0 <= start < end <= text.len(),
        hex_number(text, start, end) || decimal_number(text, start, end),
    ensures
        end <= crate::lexer::number_end(text, start),
        crate::chars::decimal_digit(text[start]),
{
    digits_are_told_apart(text[start]);
    number_has_its_first_digit(text, start, end);
    number_has_its_form(text, start);
    if hex_number(text, start, end) {
        assert(CharClass::HexDigit.has(text[start + 2]));
        assert(crate::lexer::hex_number_at(text, start));
        runs_end_with_the_longest(text, start + 2, end, CharClass::HexDigit);
    } else {
        let (whole, scale) = choose|whole: int, scale: int|
            decimal_parts(text, start, whole, scale, end);
        assert(decimal_parts(text, start, whole, scale, end));
        if whole < end {
            digits_are_told_apart(text[whole]);
        }
        if scale < end {
            digits_are_told_apart(text[scale]);
        }
        if start + 1 < end {
            digits_are_told_apart(text[start + 1]);
        }
        if crate::lexer::hex_number_at(text, start) {
            if start + 1 < whole {
                assert(CharClass::Digit.has(text[start + 1]));
                digits_are_told_apart(text[start + 1]);
            }
            assert(whole == start + 1);
            assert(end == start + 1);
        } else {
            decimal_number_is_the_longest(text, start, whole, scale, end);
        }
    }
}

proof fn number_has_its_first_digit(text: Seq<char>, start: int, end: int)
    requires
        0 <= start < end <= text.len(),
        hex_number(text, start, end) || decimal_number(text, start, end),
    ensures
        crate::chars::decimal_digit(text[start]),
{
    digits_are_told_apart(text[start]);
    if !hex_number(text, start, end) {
        let (whole, scale) = choose|whole: int, scale: int|
            decimal_parts(text, start, whole, scale, end);
        assert(decimal_parts(text, start, whole, scale, end));
        assert(CharClass::Digit.has(text[start]));
    }
}

proof fn decimal_number_is_the_longest(
    text: Seq<char>,
    start: int,
    whole: int,
    scale: int,
    end: int,
)
    requires
        0 <= start < end <= text.len(),
        decimal_parts(text, start, whole, scale, end),
        crate::chars::decimal_digit(text[start]),
        !crate::lexer::hex_number_at(text, start),
    ensures
        end <= crate::lexer::number_end(text, start),
{
    let longest_whole = crate::chars::run_end(text, start, CharClass::Digit);
    let longest_scale = crate::lexer::fraction_end(text, longest_whole);
    crate::chars::run_is_maximal(text, start, CharClass::Digit);
    runs_end_with_the_longest(text, start, whole, CharClass::Digit);
    if longest_whole + 1 < text.len() {
        crate::chars::run_is_maximal(text, longest_whole + 1, CharClass::Digit);
    }
    let digits = crate::lexer::exponent_digits(text, longest_scale);
    if digits < text.len() {
        crate::chars::run_is_maximal(text, digits, CharClass::Digit);
    }
    if whole < longest_whole {
        assert(CharClass::Digit.has(text[whole]));
        digits_are_told_apart(text[whole]);
        assert(scale == whole && end == whole);
    } else {
        if scale != whole {
            assert(CharClass::Digit.has(text[whole + 1]));
            runs_end_with_the_longest(text, whole + 1, scale, CharClass::Digit);
            if scale < longest_scale {
                assert(CharClass::Digit.has(text[scale]));
                digits_are_told_apart(text[scale]);
                assert(end == scale);
            }
        }
        if scale < end && end > longest_scale {
            assert(scale == longest_scale);
            digits_are_told_apart(text[scale + 1]);
            if run(text, scale + 1, end, CharClass::Digit) {
                assert(CharClass::Digit.has(text[scale + 1]));
                assert(digits == scale + 1);
                runs_end_with_the_longest(text, scale + 1, end, CharClass::Digit);
            } else {
                assert(CharClass::Digit.has(text[scale + 2]));
                assert(digits == scale + 2);
                runs_end_with_the_longest(text, scale + 2, end, CharClass::Digit);
            }
        }
    }
}

/// What the lexer takes for a token has the form of that token, and a word that is a
/// keyword is taken for nothing else.
pub proof fn tokens_have_their_form(text: Seq<char>, start: int)
    requires
        0 <= start < text.len(),
    ensures
        ({
            let (token, end) = crate::lexer::token_at(text, start);
            &&& token matches Some(token) ==> matches(token, text, start, end)
            &&& token == Some(PythonToken::Ident) ==> !crate::lexer::keyword(
                text.subrange(start, end),
            )
        }),
{
    let c = text[start];
    crate::lexer::tokens_are_not_empty(text, start);
    crate::chars::run_is_maximal(text, start, CharClass::Word);
    crate::chars::run_is_maximal(text, start, CharClass::Line);
    crate::chars::run_is_maximal(text, start, CharClass::Blank);
    digits_are_told_apart(c);
    if crate::chars::decimal_digit(c) {
        number_has_its_form(text, start);
    } else if crate::chars::quote(c) {
        stopped_text_is_quoted(text, start + 1, c);
    }
}

/// The lexer takes the longest match: no longer stretch of the text from `start` on
/// has the form of any token, and where the lexer finds no token none has.
pub proof fn tokens_are_the_longest_match(
    text: Seq<char>,
    start: int,
    end: int,
    other: PythonToken,
)
    requires
        0 <= start < text.len(),
        matches(other, text, start, end),
    ensures
        crate::lexer::token_at(text, start).0 is Some,
        end <= crate::lexer::token_at(text, start).1,
{
    let c = text[start];
    digits_are_told_apart(c);
    match other {
        PythonToken::Keyword => {
            keywords_are_words(text, start, end);
            runs_end_with_the_longest(text, start, end, CharClass::Word);
        },
        PythonToken::Ident => {
            runs_end_with_the_longest(text, start, end, CharClass::Word);
        },
        PythonToken::Number => {
            number_is_the_longest(text, start, end);
        },
        PythonToken::String => {
            quoted_text_ends_the_string(text, start + 1, end - 1, c);
        },
        PythonToken::Comment => {
            runs_end_with_the_longest(text, start, end, CharClass::Line);
        },
        PythonToken::Punctuation => {},
        PythonToken::Whitespace => {
            assert(CharClass::Blank.has(c));
            runs_end_with_the_longest(text, start, end, CharClass::Blank);
        },
    }
}

} // verus!
