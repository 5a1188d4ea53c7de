//! Syntax highlighting of Python text.

use crate::lexer::{next_token, PythonToken};
use crate::text::chars_of;
use vstd::prelude::*;

verus! {

/// A stretch of the text, from one byte up to another, and its color.
#[derive(Clone, Copy, Debug, Eq, PartialEq)]
pub struct HighlightSection {
    pub start: usize,
    pub end: usize,
    pub color: (u8, u8, u8),
}

/// The color of a token, or of text that is none.
pub open spec fn color_of(token: Option<PythonToken>) -> (u8, u8, u8) {
    match token {
        Some(PythonToken::Keyword) => (198, 120, 221),
        Some(PythonToken::Ident) => (97, 175, 239),
        Some(PythonToken::Number) => (209, 154, 102),
        Some(PythonToken::String) => (152, 195, 121),
        Some(PythonToken::Comment) => (92, 99, 112),
        Some(PythonToken::Punctuation) => (171, 178, 191),
        Some(PythonToken::Whitespace) | None => (171, 178, 191),
    }
}

/// How many bytes the first `i` characters take.
pub open spec fn byte_offset(text: Seq<char>, i: int) -> int {
    vstd::utf8::encode_utf8(text.take(i)).len() as int
}

/// The sections of the text from character `i` on.
pub open spec fn sections_from(text: Seq<char>, i: int) -> Seq<HighlightSection>
    decreases
        (if i < text.len() {
            text.len() - i
        } else {
            0
        }),
{
    if i < 0 || i >= text.len() {
        seq![]
    } else {
        let (token, end) = crate::lexer::token_at(text, i);
        let section = HighlightSection {
            start: byte_offset(text, i) as usize,
            end: byte_offset(text, end) as usize,
            color: color_of(token),
        };
        if end <= i {
            seq![]
        } else {
            seq![section] + sections_from(text, end)
        }
    }
}

/// Colors Python text.
#[derive(Clone, Copy, Debug)]
pub struct Highlighter {}

impl Default for Highlighter {
    fn default() -> (highlighter: Highlighter)
        ensures
            highlighter == (Highlighter {  }),
    {
        Highlighter {  }
    }
}

/// How many bytes a character takes.
pub open spec fn char_width(c: char) -> int {
    vstd::utf8::encode_scalar(c as u32).len() as int
}

fn width_of(c: char) -> (width: usize)
    ensures
        width == char_width(c),
        1 <= width <= 4,
{
    let code: u32 = c as u32;
    if code <= 0x7f {
        1
    } else if code <= 0x7ff {
        2
    } else if code <= 0xffff {
        3
    } else {
        4
    }
}

/// One more character takes as many bytes more as it is wide.
proof fn offset_grows_by_the_width(text: Seq<char>, i: int)
    requires
        0 <= i < text.len(),
    ensures
        byte_offset(text, i + 1) == byte_offset(text, i) + char_width(text[i]),
{
    assert(text.take(i + 1) =~= text.take(i).push(text[i]));
    encoding_of_one_more(text.take(i), text[i]);
}

proof fn encoding_of_one_more(text: Seq<char>, c: char)
    ensures
        vstd::utf8::encode_utf8(text.push(c)) == vstd::utf8::encode_utf8(text)
            + vstd::utf8::encode_scalar(c as u32),
    decreases text.len(),
{
    let more = text.push(c);
    if text.len() == 0 {
        assert(more.drop_first() =~= text);
        assert(vstd::utf8::encode_utf8(more) =~= vstd::utf8::encode_utf8(text)
            + vstd::utf8::encode_scalar(c as u32));
    } else {
        assert(more.drop_first() =~= text.drop_first().push(c));
        encoding_of_one_more(text.drop_first(), c);
        assert(vstd::utf8::encode_utf8(more) =~= vstd::utf8::encode_utf8(text)
            + vstd::utf8::encode_scalar(c as u32));
    }
}

/// The bytes before a character come before those behind it.
proof fn offsets_grow(text: Seq<char>, i: int, j: int)
    requires
        0 <= i <= j <= text.len(),
    ensures
        byte_offset(text, i) + (j - i) <= byte_offset(text, j),
    decreases j - i,
{
    if i < j {
        offsets_grow(text, i, j - 1);
        offset_grows_by_the_width(text, j - 1);
    }
}

impl Highlighter {
    /// The sections of a Python text, one for each token and one for each stretch
    /// that is none.
    pub fn highlight(&self, text: &str) -> (sections: Vec<HighlightSection>)
        ensures
            sections@ == sections_from(text@, 0),
    {
        let size: usize = text.as_bytes().len();
        let chars = chars_of(text);
        let mut sections: Vec<HighlightSection> = Vec::new();
        let mut i: usize = 0;
        let mut start: usize = 0;
        proof {
            assert(text@.take(0) =~= Seq::<char>::empty());
            assert(text@.take(text@.len() as int) =~= text@);
            assert(size == byte_offset(text@, text@.len() as int));
        }
        while i < chars.len()
            invariant
                chars@ == text@,
                i <= chars@.len(),
                start == byte_offset(text@, i as int),
                size == byte_offset(text@, text@.len() as int),
                sections@ + sections_from(text@, i as int) == sections_from(text@, 0),
            decreases chars@.len() - i,
        {
            let (token, next) = next_token(&chars, i);
            let mut end: usize = start;
            let mut k: usize = i;
            while k < next
                invariant
                    chars@ == text@,
                    i <= k <= next <= chars@.len(),
                    end == byte_offset(text@, k as int),
                    size == byte_offset(text@, text@.len() as int),
                decreases next - k,
            {
                proof {
                    offset_grows_by_the_width(text@, k as int);
                    offsets_grow(text@, k + 1, text@.len() as int);
                }
                end = end + width_of(chars[k]);
                k = k + 1;
            }
            let ghost done = sections@;
            let section = HighlightSection { start, end, color: Self::color_for(token) };
            sections.push(section);
            proof {
                assert(sections@ + sections_from(text@, next as int) =~= done + (seq![section]
                    + sections_from(text@, next as int)));
            }
            i = next;
            start = end;
        }
        assert(sections@ + sections_from(text@, i as int) =~= sections@);
        sections
    }

    /// The color of a token, or of text that is none.
    pub fn color_for(token: Option<PythonToken>) -> (color: (u8, u8, u8))
        ensures
            color == color_of(token),
    {
        match token {
            Some(PythonToken::Keyword) => (198, 120, 221),
            Some(PythonToken::Ident) => (97, 175, 239),
            Some(PythonToken::Number) => (209, 154, 102),
            Some(PythonToken::String) => (152, 195, 121),
            Some(PythonToken::Comment) => (92, 99, 112),
            Some(PythonToken::Punctuation) => (171, 178, 191),
            Some(PythonToken::Whitespace) | None => (171, 178, 191),
        }
    }
}

/// The bytes of a text split where its characters do.
proof fn offset_is_a_char_boundary(text: Seq<char>, i: int)
    requires
        0 <= i <= text.len(),
    ensures
        vstd::utf8::is_char_boundary(vstd::utf8::encode_utf8(text), byte_offset(text, i)),
        0 <= byte_offset(text, i) <= vstd::utf8::encode_utf8(text).len(),
    decreases i,
{
    let bytes = vstd::utf8::encode_utf8(text);
    vstd::utf8::encode_utf8_valid_utf8(text);
    assert(text.take(text.len() as int) =~= text);
    offsets_grow(text, i, text.len() as int);
    if i > 0 {
        let rest = text.drop_first();
        let c = text[0];
        vstd::utf8::encode_utf8_first_scalar(text);
        assert(vstd::utf8::pop_first_scalar(bytes) =~= vstd::utf8::encode_utf8(rest));
        offset_is_a_char_boundary(rest, i - 1);
        assert(text.take(i).drop_first() =~= rest.take(i - 1));
        assert(byte_offset(text, i) == char_width(c) + byte_offset(rest, i - 1));
    } else {
        assert(text.take(0) =~= Seq::<char>::empty());
    }
}

/// From any character on, the sections lie one behind the other.
proof fn sections_follow_each_other(text: Seq<char>, i: int)
    requires
        0 <= i < text.len(),
        vstd::utf8::encode_utf8(text).len() <= usize::MAX,
    ensures
        ({
            let sections = sections_from(text, i);
            &&& sections.len() > 0
            &&& sections[0].start == byte_offset(text, i)
            &&& sections.last().end == vstd::utf8::encode_utf8(text).len()
            &&& forall|k: int|
                0 <= k < sections.len() ==> (#[trigger] sections[k]).start < sections[k].end
            &&& forall|k: int|
                0 <= k < sections.len() - 1 ==> (#[trigger] sections[k]).end == sections[k
                    + 1].start
            &&& forall|k: int|
                0 <= k < sections.len() ==> vstd::utf8::is_char_boundary(
                    vstd::utf8::encode_utf8(text),
                    (#[trigger] sections[k]).start as int,
                )
        }),
    decreases text.len() - i,
{
    let (token, end) = crate::lexer::token_at(text, i);
    crate::lexer::tokens_are_not_empty(text, i);
    offsets_grow(text, i, end);
    offset_is_a_char_boundary(text, i);
    offset_is_a_char_boundary(text, end);
    let sections = sections_from(text, i);
    let rest = sections_from(text, end);
    assert(sections.drop_first() =~= rest);
    if end < text.len() {
        sections_follow_each_other(text, end);
        assert forall|k: int| 0 <= k < sections.len() implies (#[trigger] sections[k]).start
            < sections[k].end && vstd::utf8::is_char_boundary(
            vstd::utf8::encode_utf8(text),
            sections[k].start as int,
        ) by {
            if k > 0 {
                assert(sections[k] == rest[k - 1]);
            }
        }
        assert forall|k: int| 0 <= k < sections.len() - 1 implies (#[trigger] sections[k]).end
            == sections[k + 1].start by {
            if k > 0 {
                assert(sections[k] == rest[k - 1]);
                assert(sections[k + 1] == rest[k]);
            }
        }
        assert(sections.last() == rest.last());
    } else {
        assert(text.take(text.len() as int) =~= text);
        assert(sections.len() == 1);
    }
}

/// The sections of a text cover all of it: they start at its first byte, lie one
/// behind the other, and end at its last one. None is empty, and each starts and
/// ends between two characters.
pub proof fn sections_cover_the_text(text: Seq<char>)
    requires
        vstd::utf8::encode_utf8(text).len() <= usize::MAX,
    ensures
        ({
            let sections = sections_from(text, 0);
            let bytes = vstd::utf8::encode_utf8(text);
            &&& sections.len() == 0 <==> text.len() == 0
            &&& sections.len() > 0 ==> sections[0].start == 0 && sections.last().end == bytes.len()
            &&& forall|k: int|
                0 <= k < sections.len() ==> {
                    &&& (#[trigger] sections[k]).start < sections[k].end <= bytes.len()
                    &&& vstd::utf8::is_char_boundary(bytes, sections[k].start as int)
                    &&& vstd::utf8::is_char_boundary(bytes, sections[k].end as int)
                }
            &&& forall|k: int|
                0 <= k < sections.len() - 1 ==> (#[trigger] sections[k]).end == sections[k
                    + 1].start
        }),
{
    if text.len() > 0 {
        let sections = sections_from(text, 0);
        let bytes = vstd::utf8::encode_utf8(text);
        sections_follow_each_other(text, 0);
        assert(text.take(0) =~= Seq::<char>::empty());
        vstd::utf8::encode_utf8_valid_utf8(text);
        vstd::utf8::is_char_boundary_start_end_of_seq(bytes);
        assert forall|k: int| 0 <= k < sections.len() implies (#[trigger] sections[k]).end
            <= bytes.len() && vstd::utf8::is_char_boundary(bytes, sections[k].end as int) by {
            if k < sections.len() - 1 {
                sections_end_in_order(sections, k);
                assert(sections[k].end == sections[k + 1].start);
            }
        }
    }
}

/// Sections that lie one behind the other end no later than the last one.
proof fn sections_end_in_order(sections: Seq<HighlightSection>, k: int)
    requires
        0 <= k < sections.len(),
        forall|j: int| 0 <= j < sections.len() ==> (#[trigger] sections[j]).start < sections[j].end,
        forall|j: int|
            0 <= j < sections.len() - 1 ==> (#[trigger] sections[j]).end == sections[j + 1].start,
    ensures
        sections[k].end <= sections.last().end,
    decreases sections.len() - k,
{
    if k < sections.len() - 1 {
        sections_end_in_order(sections, k + 1);
        assert(sections[k].end == sections[k + 1].start);
    }
}

/// The color of each token.
pub proof fn tokens_have_these_colors(token: PythonToken)
    ensures
        color_of(Some(token)) == match token {
            PythonToken::Keyword => (198u8, 120u8, 221u8),
            PythonToken::Ident => (97u8, 175u8, 239u8),
            PythonToken::Number => (209u8, 154u8, 102u8),
            PythonToken::String => (152u8, 195u8, 121u8),
            PythonToken::Comment => (92u8, 99u8, 112u8),
            _ => (171u8, 178u8, 191u8),
        },
        color_of(None) == (171u8, 178u8, 191u8),
{
}

/// A section reaches from character `i` up to character `end`, where the text has the
/// form of a token and no longer stretch from `i` on has the form of any, and it has
/// the color of that token, whatever stands around it. A keyword has the form of an
/// identifier too and counts as a keyword. Where no stretch from `i` on has the form
/// of a token, the section has the color of plain text and holds one character, or a
/// string as far as it goes before it breaks off.
pub open spec fn shows_token(
    section: HighlightSection,
    text: Seq<char>,
    i: int,
    end: int,
) -> bool {
    &&& 0 <= i < end <= text.len()
    &&& section.start == vstd::utf8::encode_utf8(text.take(i)).len()
    &&& section.end == vstd::utf8::encode_utf8(text.take(end)).len()
    &&& forall|token: PythonToken, further: int| #[trigger]
        crate::grammar::matches(token, text, i, further) ==> further <= end
    &&& {
        ||| exists|token: PythonToken|
            {
                &&& #[trigger] crate::grammar::matches(token, text, i, end)
                &&& token == PythonToken::Ident ==> !crate::lexer::keyword(text.subrange(i, end))
                &&& section.color == color_of(Some(token))
            }
        ||| {
            &&& section.color == (171u8, 178u8, 191u8)
            &&& if text[i] == '"' || text[i] == '\'' {
                &&& crate::grammar::quoted(text, i + 1, end, text[i])
                &&& end == text.len() || text[end] == '\\'
            } else {
                end == i + 1
            }
            &&& forall|token: PythonToken, further: int|
                !#[trigger] crate::grammar::matches(token, text, i, further)
        }
    }
}

/// Every section shows one token of the text, or a stretch where there is none.
pub proof fn sections_show_tokens(text: Seq<char>, k: int)
    requires
        vstd::utf8::encode_utf8(text).len() <= usize::MAX,
        0 <= k < sections_from(text, 0).len(),
    ensures
        exists|i: int, end: int| #[trigger] shows_token(sections_from(text, 0)[k], text, i, end),
{
    later_sections_show_tokens(text, 0, k);
}

proof fn later_sections_show_tokens(text: Seq<char>, from: int, k: int)
    requires
        vstd::utf8::encode_utf8(text).len() <= usize::MAX,
        0 <= from,
        0 <= k < sections_from(text, from).len(),
    ensures
        exists|i: int, end: int|
            #[trigger] shows_token(sections_from(text, from)[k], text, i, end),
    decreases k,
{
    let (token, end) = crate::lexer::token_at(text, from);
    crate::lexer::tokens_are_not_empty(text, from);
    if k > 0 {
        later_sections_show_tokens(text, end, k - 1);
        assert(sections_from(text, from)[k] == sections_from(text, end)[k - 1]);
    } else {
        let section = sections_from(text, from)[0];
        offset_is_a_char_boundary(text, from);
        offset_is_a_char_boundary(text, end);
        crate::grammar::tokens_have_their_form(text, from);
        assert forall|other: PythonToken, further: int| #[trigger]
            crate::grammar::matches(other, text, from, further) implies further <= end && token
            is Some by {
            crate::grammar::tokens_are_the_longest_match(text, from, further, other);
        }
        if let Some(token) = token {
            assert(crate::grammar::matches(token, text, from, end));
        } else {
            crate::lexer::stretches_without_a_token(text, from);
        }
        assert(shows_token(section, text, from, end));
    }
}

} // verus!
