//! The characters that Python text is made of.

use vstd::prelude::*;

verus! {

/// The zeros of all decimal digits. Behind each of them its digits one to nine
/// follow.
pub const DIGIT_ZEROS: [u32; 76] = [
    0x0030, 0x0660, 0x06F0, 0x07C0, 0x0966, 0x09E6, 0x0A66, 0x0AE6,
    0x0B66, 0x0BE6, 0x0C66, 0x0CE6, 0x0D66, 0x0DE6, 0x0E50, 0x0ED0,
    0x0F20, 0x1040, 0x1090, 0x17E0, 0x1810, 0x1946, 0x19D0, 0x1A80,
    0x1A90, 0x1B50, 0x1BB0, 0x1C40, 0x1C50, 0xA620, 0xA8D0, 0xA900,
    0xA9D0, 0xA9F0, 0xAA50, 0xABF0, 0xFF10, 0x104A0, 0x10D30, 0x10D40,
    0x11066, 0x110F0, 0x11136, 0x111D0, 0x112F0, 0x11450, 0x114D0, 0x11650,
    0x116C0, 0x116D0, 0x116DA, 0x11730, 0x118E0, 0x11950, 0x11BF0, 0x11C50,
    0x11D50, 0x11DA0, 0x11F50, 0x16130, 0x16A60, 0x16AC0, 0x16B50, 0x16D70,
    0x1CCF0, 0x1D7CE, 0x1D7D8, 0x1D7E2, 0x1D7EC, 0x1D7F6, 0x1E140, 0x1E2F0,
    0x1E4F0, 0x1E5F1, 0x1E950, 0x1FBF0,
];

/// The character is a decimal digit of some script.
pub open spec fn decimal_digit(c: char) -> bool {
    exists|k: int| 0 <= k < 76 && #[trigger] DIGIT_ZEROS@[k] <= (c as u32) < DIGIT_ZEROS@[k] + 10
}

pub fn is_decimal_digit(c: char) -> (digit: bool)
    ensures
        digit == decimal_digit(c),
{
    let code: u32 = c as u32;
    let mut k: usize = 0;
    while k < 76
        invariant
            k <= 76,
            code == c as u32,
            forall|j: int| 0 <= j < k ==> !(#[trigger] DIGIT_ZEROS@[j] <= code < DIGIT_ZEROS@[j] + 10),
        decreases 76 - k,
    {
        if DIGIT_ZEROS[k] <= code && code - DIGIT_ZEROS[k] < 10 {
            return true;
        }
        k = k + 1;
    }
    false
}

pub open spec fn letter(c: char) -> bool {
    'a' <= c <= 'z' || 'A' <= c <= 'Z' || c == '_'
}

pub open spec fn hex_digit(c: char) -> bool {
    '0' <= c <= '9' || 'a' <= c <= 'f' || 'A' <= c <= 'F'
}

pub open spec fn blank(c: char) -> bool {
    c == ' ' || c == '\t' || c == '\n' || c == '\u{c}' || c == '\r'
}

pub open spec fn quote(c: char) -> bool {
    c == '"' || c == '\''
}

pub open spec fn punctuation(c: char) -> bool {
    ||| c == '(' || c == ')' || c == '[' || c == ']' || c == '{' || c == '}'
    ||| c == '.' || c == ',' || c == ':' || c == ';' || c == '@' || c == '='
    ||| c == '+' || c == '-' || c == '*' || c == '/' || c == '%' || c == '&'
    ||| c == '|' || c == '^' || c == '~' || c == '<' || c == '>'
}

/// The characters that a token of some sort goes on with.
#[derive(Clone, Copy, Debug)]
pub enum CharClass {
    /// Letters, underscores and the digits of ASCII.
    Word,
    /// Decimal digits of any script.
    Digit,
    HexDigit,
    Blank,
    /// Everything up to the end of the line.
    Line,
}

impl CharClass {
    pub open spec fn has(self, c: char) -> bool {
        match self {
            CharClass::Word => letter(c) || '0' <= c <= '9',
            CharClass::Digit => decimal_digit(c),
            CharClass::HexDigit => hex_digit(c),
            CharClass::Blank => blank(c),
            CharClass::Line => c != '\n',
        }
    }

    pub fn contains(self, c: char) -> (contained: bool)
        ensures
            contained == self.has(c),
    {
        match self {
            CharClass::Word => is_letter(c) || ('0' <= c && c <= '9'),
            CharClass::Digit => is_decimal_digit(c),
            CharClass::HexDigit => {
                ('0' <= c && c <= '9') || ('a' <= c && c <= 'f') || ('A' <= c && c <= 'F')
            },
            CharClass::Blank => is_blank(c),
            CharClass::Line => c != '\n',
        }
    }
}

pub fn is_letter(c: char) -> (yes: bool)
    ensures
        yes == letter(c),
{
    ('a' <= c && c <= 'z') || ('A' <= c && c <= 'Z') || c == '_'
}

pub fn is_blank(c: char) -> (yes: bool)
    ensures
        yes == blank(c),
{
    c == ' ' || c == '\t' || c == '\n' || c == '\u{c}' || c == '\r'
}

pub fn is_punctuation(c: char) -> (yes: bool)
    ensures
        yes == punctuation(c),
{
    match c {
        '(' | ')' | '[' | ']' | '{' | '}' | '.' | ',' | ':' | ';' | '@' | '=' | '+' | '-' | '*'
        | '/' | '%' | '&' | '|' | '^' | '~' | '<' | '>' => true,
        _ => false,
    }
}

/// The end of the longest run of characters of a class from `i` on.
pub open spec fn run_end(text: Seq<char>, i: int, class: CharClass) -> int
    decreases text.len() - i,
{
    if 0 <= i < text.len() && class.has(text[i]) {
        run_end(text, i + 1, class)
    } else {
        i
    }
}

pub fn end_of_run(text: &Vec<char>, i: usize, class: CharClass) -> (end: usize)
    requires
        i <= text@.len(),
    ensures
        end == run_end(text@, i as int, class),
        i <= end <= text@.len(),
{
    let mut end: usize = i;
    while end < text.len() && class.contains(text[end])
        invariant
            i <= end <= text@.len(),
            run_end(text@, i as int, class) == run_end(text@, end as int, class),
        decreases text@.len() - end,
    {
        end = end + 1;
    }
    end
}

/// A run holds characters of its class only, and the one behind it is no such
/// character.
pub proof fn run_is_maximal(text: Seq<char>, i: int, class: CharClass)
    requires
        0 <= i <= text.len(),
    ensures
        i <= run_end(text, i, class) <= text.len(),
        forall|k: int| i <= k < run_end(text, i, class) ==> class.has(#[trigger] text[k]),
        run_end(text, i, class) < text.len() ==> !class.has(text[run_end(text, i, class)]),
    decreases text.len() - i,
{
    if i < text.len() && class.has(text[i]) {
        run_is_maximal(text, i + 1, class);
    }
}

/// The characters of each class of ASCII characters, by their codes.
pub proof fn classes_of_ascii(c: char)
    ensures
        letter(c) <==> 65 <= c as u32 <= 90 || 97 <= c as u32 <= 122 || c as u32 == 95,
        CharClass::Word.has(c) <==> letter(c) || 48 <= c as u32 <= 57,
        CharClass::HexDigit.has(c) <==> 48 <= c as u32 <= 57 || 65 <= c as u32 <= 70 || 97
            <= c as u32 <= 102,
        CharClass::Line.has(c) <==> c as u32 != 10,
        blank(c) <==> " \t\n\u{c}\r"@.contains(c),
        CharClass::Blank.has(c) <==> blank(c),
        quote(c) <==> c as u32 == 34 || c as u32 == 39,
        punctuation(c) <==> "()[]{}.,:;@=+-*/%&|^~<>"@.contains(c),
        CharClass::Digit.has(c) <==> decimal_digit(c),
        (c as u32) < 128 ==> (decimal_digit(c) <==> 48 <= c as u32 <= 57),
{
    let blanks = " \t\n\u{c}\r"@;
    let marks = "()[]{}.,:;@=+-*/%&|^~<>"@;
    reveal_strlit(" \t\n\u{c}\r");
    reveal_strlit("()[]{}.,:;@=+-*/%&|^~<>");
    if blank(c) {
        assert(blanks[0] == c || blanks[1] == c || blanks[2] == c || blanks[3] == c || blanks[4]
            == c);
    }
    if punctuation(c) {
        assert(marks[0] == c || marks[1] == c || marks[2] == c || marks[3] == c || marks[4] == c
            || marks[5] == c || marks[6] == c || marks[7] == c || marks[8] == c || marks[9] == c
            || marks[10] == c || marks[11] == c || marks[12] == c || marks[13] == c || marks[14]
            == c || marks[15] == c || marks[16] == c || marks[17] == c || marks[18] == c
            || marks[19] == c || marks[20] == c || marks[21] == c || marks[22] == c);
    }
    if 48 <= c as u32 <= 57 {
        assert(DIGIT_ZEROS@[0] == 48);
    }
}

/// The codes of the decimal digits of all scripts.
pub open spec fn code_of_a_digit(code: u32) -> bool {
    ||| 0x0030 <= code <= 0x0039
    ||| 0x0660 <= code <= 0x0669
    ||| 0x06F0 <= code <= 0x06F9
    ||| 0x07C0 <= code <= 0x07C9
    ||| 0x0966 <= code <= 0x096F
    ||| 0x09E6 <= code <= 0x09EF
    ||| 0x0A66 <= code <= 0x0A6F
    ||| 0x0AE6 <= code <= 0x0AEF
    ||| 0x0B66 <= code <= 0x0B6F
    ||| 0x0BE6 <= code <= 0x0BEF
    ||| 0x0C66 <= code <= 0x0C6F
    ||| 0x0CE6 <= code <= 0x0CEF
    ||| 0x0D66 <= code <= 0x0D6F
    ||| 0x0DE6 <= code <= 0x0DEF
    ||| 0x0E50 <= code <= 0x0E59
    ||| 0x0ED0 <= code <= 0x0ED9
    ||| 0x0F20 <= code <= 0x0F29
    ||| 0x1040 <= code <= 0x1049
    ||| 0x1090 <= code <= 0x1099
    ||| 0x17E0 <= code <= 0x17E9
    ||| 0x1810 <= code <= 0x1819
    ||| 0x1946 <= code <= 0x194F
    ||| 0x19D0 <= code <= 0x19D9
    ||| 0x1A80 <= code <= 0x1A89
    ||| 0x1A90 <= code <= 0x1A99
    ||| 0x1B50 <= code <= 0x1B59
    ||| 0x1BB0 <= code <= 0x1BB9
    ||| 0x1C40 <= code <= 0x1C49
    ||| 0x1C50 <= code <= 0x1C59
    ||| 0xA620 <= code <= 0xA629
    ||| 0xA8D0 <= code <= 0xA8D9
    ||| 0xA900 <= code <= 0xA909
    ||| 0xA9D0 <= code <= 0xA9D9
    ||| 0xA9F0 <= code <= 0xA9F9
    ||| 0xAA50 <= code <= 0xAA59
    ||| 0xABF0 <= code <= 0xABF9
    ||| 0xFF10 <= code <= 0xFF19
    ||| 0x104A0 <= code <= 0x104A9
    ||| 0x10D30 <= code <= 0x10D39
    ||| 0x10D40 <= code <= 0x10D49
    ||| 0x11066 <= code <= 0x1106F
    ||| 0x110F0 <= code <= 0x110F9
    ||| 0x11136 <= code <= 0x1113F
    ||| 0x111D0 <= code <= 0x111D9
    ||| 0x112F0 <= code <= 0x112F9
    ||| 0x11450 <= code <= 0x11459
    ||| 0x114D0 <= code <= 0x114D9
    ||| 0x11650 <= code <= 0x11659
    ||| 0x116C0 <= code <= 0x116C9
    ||| 0x116D0 <= code <= 0x116E3
    ||| 0x11730 <= code <= 0x11739
    ||| 0x118E0 <= code <= 0x118E9
    ||| 0x11950 <= code <= 0x11959
    ||| 0x11BF0 <= code <= 0x11BF9
    ||| 0x11C50 <= code <= 0x11C59
    ||| 0x11D50 <= code <= 0x11D59
    ||| 0x11DA0 <= code <= 0x11DA9
    ||| 0x11F50 <= code <= 0x11F59
    ||| 0x16130 <= code <= 0x16139
    ||| 0x16A60 <= code <= 0x16A69
    ||| 0x16AC0 <= code <= 0x16AC9
    ||| 0x16B50 <= code <= 0x16B59
    ||| 0x16D70 <= code <= 0x16D79
    ||| 0x1CCF0 <= code <= 0x1CCF9
    ||| 0x1D7CE <= code <= 0x1D7FF
    ||| 0x1E140 <= code <= 0x1E149
    ||| 0x1E2F0 <= code <= 0x1E2F9
    ||| 0x1E4F0 <= code <= 0x1E4F9
    ||| 0x1E5F1 <= code <= 0x1E5FA
    ||| 0x1E950 <= code <= 0x1E959
    ||| 0x1FBF0 <= code <= 0x1FBF9
}

/// The decimal digits are those of all scripts and nothing else.
pub proof fn digits_of_all_scripts(c: char)
    ensures
        decimal_digit(c) <==> code_of_a_digit(c as u32),
{
    let code = c as u32;
    if code_of_a_digit(code) {
        assert(exists|k: int|
            0 <= k < 76 && #[trigger] DIGIT_ZEROS@[k] <= code < DIGIT_ZEROS@[k] + 10);
    }
}

} // verus!
