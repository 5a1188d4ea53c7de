//! The tokens of Python text.

use crate::chars::{
    end_of_run, is_blank, is_decimal_digit, is_letter, is_punctuation, CharClass,
};
use vstd::prelude::*;

verus! {

#[derive(Clone, Copy, Debug, Eq, PartialEq, Structural)]
pub enum PythonToken {
    Keyword,
    Ident,
    Number,
    String,
    Comment,
    Punctuation,
    Whitespace,
}

pub open spec fn keyword(word: Seq<char>) -> bool {
    ||| word == "def"@
    ||| word == "class"@
    ||| word == "if"@
    ||| word == "else"@
    ||| word == "elif"@
    ||| word == "for"@
    ||| word == "while"@
    ||| word == "try"@
    ||| word == "except"@
    ||| word == "finally"@
    ||| word == "with"@
    ||| word == "as"@
    ||| word == "return"@
    ||| word == "break"@
    ||| word == "continue"@
    ||| word == "pass"@
    ||| word == "import"@
    ||| word == "from"@
    ||| word == "in"@
    ||| word == "is"@
    ||| word == "and"@
    ||| word == "or"@
    ||| word == "not"@
    ||| word == "global"@
    ||| word == "nonlocal"@
    ||| word == "lambda"@
    ||| word == "yield"@
    ||| word == "raise"@
    ||| word == "assert"@
    ||| word == "del"@
    ||| word == "True"@
    ||| word == "False"@
    ||| word == "None"@
}

/// The end of the number at `i`: digits with a fraction and an exponent, each where
/// it is complete, or hexadecimal digits behind `0x`.
pub open spec fn number_end(text: Seq<char>, i: int) -> int {
    if hex_number_at(text, i) {
        crate::chars::run_end(text, i + 2, CharClass::HexDigit)
    } else {
        exponent_end(text, fraction_end(text, crate::chars::run_end(text, i, CharClass::Digit)))
    }
}

/// A hexadecimal number starts at `i`.
pub open spec fn hex_number_at(text: Seq<char>, i: int) -> bool {
    &&& i + 2 < text.len()
    &&& text[i] == '0'
    &&& text[i + 1] == 'x' || text[i + 1] == 'X'
    &&& crate::chars::hex_digit(text[i + 2])
}

/// The end of the fraction at `i`, or `i` where there is none.
pub open spec fn fraction_end(text: Seq<char>, i: int) -> int {
    if i + 1 < text.len() && text[i] == '.' && crate::chars::decimal_digit(text[i + 1]) {
        crate::chars::run_end(text, i + 1, CharClass::Digit)
    } else {
        i
    }
}

/// Where the digits of the exponent at `i` start.
pub open spec fn exponent_digits(text: Seq<char>, i: int) -> int {
    if i + 1 < text.len() && (text[i + 1] == '+' || text[i + 1] == '-') {
        i + 2
    } else {
        i + 1
    }
}

/// The end of the exponent at `i`, or `i` where there is none.
pub open spec fn exponent_end(text: Seq<char>, i: int) -> int {
    let digits = exponent_digits(text, i);
    if digits < text.len() && (text[i] == 'e' || text[i] == 'E') && crate::chars::decimal_digit(
        text[digits],
    ) {
        crate::chars::run_end(text, digits, CharClass::Digit)
    } else {
        i
    }
}

/// Where the text of a string stops: at its closing quote, at a backslash that
/// escapes nothing in its line, or at the end of the text.
pub open spec fn quoted_end(text: Seq<char>, i: int, quote: char) -> int
    decreases text.len() - i,
{
    if i < 0 || i >= text.len() || text[i] == quote {
        i
    } else if text[i] == '\\' {
        if i + 1 < text.len() && text[i + 1] != '\n' {
            quoted_end(text, i + 2, quote)
        } else {
            i
        }
    } else {
        quoted_end(text, i + 1, quote)
    }
}

/// The token at `i` and where it ends. Characters that belong to no token come one
/// by one, a string that is not closed comes as a whole, and both without a token.
pub open spec fn token_at(text: Seq<char>, i: int) -> (Option<PythonToken>, int) {
    let c = text[i];
    if crate::chars::letter(c) {
        let end = crate::chars::run_end(text, i, CharClass::Word);
        if keyword(text.subrange(i, end)) {
            (Some(PythonToken::Keyword), end)
        } else {
            (Some(PythonToken::Ident), end)
        }
    } else if crate::chars::decimal_digit(c) {
        (Some(PythonToken::Number), number_end(text, i))
    } else if c == '#' {
        (Some(PythonToken::Comment), crate::chars::run_end(text, i, CharClass::Line))
    } else if crate::chars::quote(c) {
        let stop = quoted_end(text, i + 1, c);
        if stop < text.len() && text[stop] == c {
            (Some(PythonToken::String), stop + 1)
        } else {
            (None, stop)
        }
    } else if crate::chars::punctuation(c) {
        (Some(PythonToken::Punctuation), i + 1)
    } else if crate::chars::blank(c) {
        (Some(PythonToken::Whitespace), crate::chars::run_end(text, i, CharClass::Blank))
    } else {
        (None, i + 1)
    }
}

/// Whether the characters from `start` to `end` spell a word.
fn spells(text: &Vec<char>, start: usize, end: usize, word: &str) -> (same: bool)
    requires
        start <= end <= text@.len(),
    ensures
        same == (text@.subrange(start as int, end as int) == word@),
{
    let ghost part = text@.subrange(start as int, end as int);
    let n: usize = word.unicode_len();
    if n != end - start {
        return false;
    }
    let mut k: usize = 0;
    while k < n
        invariant
            k <= n,
            n == word@.len(),
            n == end - start,
            start <= end <= text@.len(),
            part == text@.subrange(start as int, end as int),
            forall|j: int| 0 <= j < k ==> part[j] == word@[j],
        decreases n - k,
    {
        if text[start + k] != word.get_char(k) {
            assert(part[k as int] != word@[k as int]);
            return false;
        }
        k = k + 1;
    }
    assert(part =~= word@);
    true
}

fn is_keyword(text: &Vec<char>, start: usize, end: usize) -> (yes: bool)
    requires
        start <= end <= text@.len(),
    ensures
        yes == keyword(text@.subrange(start as int, end as int)),
{
    spells(text, start, end, "def")
        || spells(text, start, end, "class")
        || spells(text, start, end, "if")
        || spells(text, start, end, "else")
        || spells(text, start, end, "elif")
        || spells(text, start, end, "for")
        || spells(text, start, end, "while")
        || spells(text, start, end, "try")
        || spells(text, start, end, "except")
        || spells(text, start, end, "finally")
        || spells(text, start, end, "with")
        || spells(text, start, end, "as")
        || spells(text, start, end, "return")
        || spells(text, start, end, "break")
        || spells(text, start, end, "continue")
        || spells(text, start, end, "pass")
        || spells(text, start, end, "import")
        || spells(text, start, end, "from")
        || spells(text, start, end, "in")
        || spells(text, start, end, "is")
        || spells(text, start, end, "and")
        || spells(text, start, end, "or")
        || spells(text, start, end, "not")
        || spells(text, start, end, "global")
        || spells(text, start, end, "nonlocal")
        || spells(text, start, end, "lambda")
        || spells(text, start, end, "yield")
        || spells(text, start, end, "raise")
        || spells(text, start, end, "assert")
        || spells(text, start, end, "del")
        || spells(text, start, end, "True")
        || spells(text, start, end, "False")
        || spells(text, start, end, "None")
}

fn end_of_number(text: &Vec<char>, i: usize) -> (end: usize)
    requires
        i < text@.len(),
        crate::chars::decimal_digit(text@[i as int]),
    ensures
        end == number_end(text@, i as int),
        i < end <= text@.len(),
{
    let n: usize = text.len();
    if n - i > 2 && text[i] == '0' && (text[i + 1] == 'x' || text[i + 1] == 'X')
        && CharClass::HexDigit.contains(text[i + 2]) {
        return end_of_run(text, i + 2, CharClass::HexDigit);
    }
    let mut end: usize = end_of_run(text, i, CharClass::Digit);
    proof {
        crate::chars::run_is_maximal(text@, i + 1, CharClass::Digit);
    }
    if n - end > 1 && text[end] == '.' && is_decimal_digit(text[end + 1]) {
        end = end_of_run(text, end + 1, CharClass::Digit);
    }
    if end < n && (text[end] == 'e' || text[end] == 'E') {
        let digits: usize = if n - end > 1 && (text[end + 1] == '+' || text[end + 1] == '-') {
            end + 2
        } else {
            end + 1
        };
        if digits < n && is_decimal_digit(text[digits]) {
            end = end_of_run(text, digits, CharClass::Digit);
        }
    }
    end
}

fn end_of_quoted(text: &Vec<char>, i: usize, quote: char) -> (end: usize)
    requires
        i <= text@.len(),
    ensures
        end == quoted_end(text@, i as int, quote),
        i <= end <= text@.len(),
{
    let mut end: usize = i;
    while end < text.len() && text[end] != quote
        invariant
            i <= end <= text@.len(),
            quoted_end(text@, i as int, quote) == quoted_end(text@, end as int, quote),
        decreases text@.len() - end,
    {
        if text[end] == '\\' {
            if text.len() - end > 1 && text[end + 1] != '\n' {
                end = end + 2;
            } else {
                return end;
            }
        } else {
            end = end + 1;
        }
    }
    end
}

/// The token at `i` and where it ends.
pub fn next_token(text: &Vec<char>, i: usize) -> (token: (Option<PythonToken>, usize))
    requires
        i < text@.len(),
    ensures
        token.0 == token_at(text@, i as int).0,
        token.1 == token_at(text@, i as int).1,
        i < token.1 <= text@.len(),
{
    let n: usize = text.len();
    let c = text[i];
    if is_letter(c) {
        let end: usize = end_of_run(text, i, CharClass::Word);
        proof {
            crate::chars::run_is_maximal(text@, i + 1, CharClass::Word);
        }
        if is_keyword(text, i, end) {
            (Some(PythonToken::Keyword), end)
        } else {
            (Some(PythonToken::Ident), end)
        }
    } else if is_decimal_digit(c) {
        (Some(PythonToken::Number), end_of_number(text, i))
    } else if c == '#' {
        proof {
            crate::chars::run_is_maximal(text@, i + 1, CharClass::Line);
        }
        (Some(PythonToken::Comment), end_of_run(text, i, CharClass::Line))
    } else if c == '"' || c == '\'' {
        let stop: usize = end_of_quoted(text, i + 1, c);
        if stop < n && text[stop] == c {
            (Some(PythonToken::String), stop + 1)
        } else {
            (None, stop)
        }
    } else if is_punctuation(c) {
        (Some(PythonToken::Punctuation), i + 1)
    } else if is_blank(c) {
        proof {
            crate::chars::run_is_maximal(text@, i + 1, CharClass::Blank);
        }
        (Some(PythonToken::Whitespace), end_of_run(text, i, CharClass::Blank))
    } else {
        (None, i + 1)
    }
}

/// The text of a string stops behind its start and inside the text.
proof fn quoted_text_stops(text: Seq<char>, i: int, quote: char)
    requires
        0 <= i <= text.len(),
    ensures
        i <= quoted_end(text, i, quote) <= text.len(),
    decreases text.len() - i,
{
    if i < text.len() && text[i] != quote {
        if text[i] == '\\' {
            if i + 1 < text.len() && text[i + 1] != '\n' {
                quoted_text_stops(text, i + 2, quote);
            }
        } else {
            quoted_text_stops(text, i + 1, quote);
        }
    }
}

/// Every token takes up some of the text.
pub proof fn tokens_are_not_empty(text: Seq<char>, i: int)
    requires
        0 <= i < text.len(),
    ensures
        i < token_at(text, i).1 <= text.len(),
{
    let c = text[i];
    crate::chars::run_is_maximal(text, i + 1, CharClass::Word);
    crate::chars::run_is_maximal(text, i + 1, CharClass::Line);
    crate::chars::run_is_maximal(text, i + 1, CharClass::Blank);
    crate::chars::run_is_maximal(text, i + 1, CharClass::Digit);
    if hex_number_at(text, i) {
        crate::chars::run_is_maximal(text, i + 2, CharClass::HexDigit);
    }
    if crate::chars::decimal_digit(c) && !hex_number_at(text, i) {
        let whole = crate::chars::run_end(text, i, CharClass::Digit);
        if whole + 1 < text.len() {
            crate::chars::run_is_maximal(text, whole + 1, CharClass::Digit);
        }
        let fraction = fraction_end(text, whole);
        let digits = exponent_digits(text, fraction);
        if digits < text.len() {
            crate::chars::run_is_maximal(text, digits, CharClass::Digit);
        }
    }
    quoted_text_stops(text, i + 1, c);
}

/// The keywords.
pub open spec fn all_keywords() -> Seq<Seq<char>> {
    seq![
        "def"@,
        "class"@,
        "if"@,
        "else"@,
        "elif"@,
        "for"@,
        "while"@,
        "try"@,
        "except"@,
        "finally"@,
        "with"@,
        "as"@,
        "return"@,
        "break"@,
        "continue"@,
        "pass"@,
        "import"@,
        "from"@,
        "in"@,
        "is"@,
        "and"@,
        "or"@,
        "not"@,
        "global"@,
        "nonlocal"@,
        "lambda"@,
        "yield"@,
        "raise"@,
        "assert"@,
        "del"@,
        "True"@,
        "False"@,
        "None"@,
    ]
}

/// A word is a keyword where it is one of these and nowhere else.
pub proof fn keywords_are_these(word: Seq<char>)
    ensures
        keyword(word) <==> all_keywords().contains(word),
{
    let all = all_keywords();
    if keyword(word) {
        if word == "def"@ {
            assert(all[0] == word);
        }
        if word == "class"@ {
            assert(all[1] == word);
        }
        if word == "if"@ {
            assert(all[2] == word);
        }
        if word == "else"@ {
            assert(all[3] == word);
        }
        if word == "elif"@ {
            assert(all[4] == word);
        }
        if word == "for"@ {
            assert(all[5] == word);
        }
        if word == "while"@ {
            assert(all[6] == word);
        }
        if word == "try"@ {
            assert(all[7] == word);
        }
        if word == "except"@ {
            assert(all[8] == word);
        }
        if word == "finally"@ {
            assert(all[9] == word);
        }
        if word == "with"@ {
            assert(all[10] == word);
        }
        if word == "as"@ {
            assert(all[11] == word);
        }
        if word == "return"@ {
            assert(all[12] == word);
        }
        if word == "break"@ {
            assert(all[13] == word);
        }
        if word == "continue"@ {
            assert(all[14] == word);
        }
        if word == "pass"@ {
            assert(all[15] == word);
        }
        if word == "import"@ {
            assert(all[16] == word);
        }
        if word == "from"@ {
            assert(all[17] == word);
        }
        if word == "in"@ {
            assert(all[18] == word);
        }
        if word == "is"@ {
            assert(all[19] == word);
        }
        if word == "and"@ {
            assert(all[20] == word);
        }
        if word == "or"@ {
            assert(all[21] == word);
        }
        if word == "not"@ {
            assert(all[22] == word);
        }
        if word == "global"@ {
            assert(all[23] == word);
        }
        if word == "nonlocal"@ {
            assert(all[24] == word);
        }
        if word == "lambda"@ {
            assert(all[25] == word);
        }
        if word == "yield"@ {
            assert(all[26] == word);
        }
        if word == "raise"@ {
            assert(all[27] == word);
        }
        if word == "assert"@ {
            assert(all[28] == word);
        }
        if word == "del"@ {
            assert(all[29] == word);
        }
        if word == "True"@ {
            assert(all[30] == word);
        }
        if word == "False"@ {
            assert(all[31] == word);
        }
        if word == "None"@ {
            assert(all[32] == word);
        }
    }
}

/// What the lexer takes where it finds no token: one character, or, behind an opening
/// quote, the text up to the place where the string breaks off. That is the end of
/// the text, or a backslash at the end of a line or of the text.
pub proof fn stretches_without_a_token(text: Seq<char>, start: int)
    requires
        0 <= start < text.len(),
        token_at(text, start).0 is None,
    ensures
        ({
            let end = token_at(text, start).1;
            if text[start] == '"' || text[start] == '\'' {
                &&& crate::grammar::quoted(text, start + 1, end, text[start])
                &&& end == text.len() || text[end] == '\\' && (end + 1 == text.len() || text[end + 1]
                    == '\n')
            } else {
                end == start + 1
            }
        }),
{
    let c = text[start];
    if crate::chars::quote(c) {
        crate::grammar::stopped_text_is_quoted(text, start + 1, c);
        quoted_text_breaks_off(text, start + 1, c);
    }
}

/// Where quoted text stops.
proof fn quoted_text_breaks_off(text: Seq<char>, i: int, quote: char)
    requires
        0 <= i <= text.len(),
    ensures
        ({
            let end = quoted_end(text, i, quote);
            end == text.len() || text[end] == quote || text[end] == '\\' && (end + 1 == text.len()
                || text[end + 1] == '\n')
        }),
    decreases text.len() - i,
{
    quoted_text_stops(text, i, quote);
    if i < text.len() && text[i] != quote {
        if text[i] == '\\' {
            if i + 1 < text.len() && text[i + 1] != '\n' {
                quoted_text_breaks_off(text, i + 2, quote);
            }
        } else {
            quoted_text_breaks_off(text, i + 1, quote);
        }
    }
}

} // verus!
