use gmanim_editor::lexer::PythonToken;
use gmanim_editor::syntax::Highlighter;

const KEYWORD: (u8, u8, u8) = (198, 120, 221);
const IDENT: (u8, u8, u8) = (97, 175, 239);
const NUMBER: (u8, u8, u8) = (209, 154, 102);
const STRING: (u8, u8, u8) = (152, 195, 121);
const COMMENT: (u8, u8, u8) = (92, 99, 112);
const PLAIN: (u8, u8, u8) = (171, 178, 191);

/// The sections of a text, which must cover all of it.
fn sections(text: &str) -> Vec<(&str, (u8, u8, u8))> {
    let mut end = 0;
    let mut parts = Vec::new();
    for section in Highlighter::default().highlight(text) {
        assert_eq!(section.start, end);
        assert!(section.start < section.end);
        parts.push((&text[section.start..section.end], section.color));
        end = section.end;
    }
    assert_eq!(end, text.len());
    parts
}

#[test]
fn every_token_has_its_color() {
    assert_eq!(
        sections("def f(x): # id\n    return x1 + 2"),
        vec![
            ("def", KEYWORD),
            (" ", PLAIN),
            ("f", IDENT),
            ("(", PLAIN),
            ("x", IDENT),
            (")", PLAIN),
            (":", PLAIN),
            (" ", PLAIN),
            ("# id", COMMENT),
            ("\n    ", PLAIN),
            ("return", KEYWORD),
            (" ", PLAIN),
            ("x1", IDENT),
            (" ", PLAIN),
            ("+", PLAIN),
            (" ", PLAIN),
            ("2", NUMBER),
        ]
    );
    assert_eq!(sections(""), Vec::new());
}

#[test]
fn all_keywords_are_known() {
    let keywords = "def class if else elif for while try except finally with as return break \
        continue pass import from in is and or not global nonlocal lambda yield raise assert del \
        True False None";
    let mut count = 0;
    for word in keywords.split(' ').filter(|word| !word.is_empty()) {
        count += 1;
        assert_eq!(sections(word), vec![(word, KEYWORD)]);
        let longer = format!("{word}_");
        assert_eq!(sections(&longer), vec![(longer.as_str(), IDENT)]);
        let number = format!("{word}1");
        assert_eq!(sections(&number), vec![(number.as_str(), IDENT)]);
    }
    assert_eq!(count, 33);
    for word in ["iff", "ass", "asser", "Def", "true", "none", "_if", "els"] {
        assert_eq!(sections(word), vec![(word, IDENT)]);
    }
}

#[test]
fn numbers_are_as_long_as_they_are_complete() {
    for number in ["0", "42", "3.14", "1e5", "1E+10", "2.5e-3", "0x1F", "0XaB", "00", "٣٤"] {
        assert_eq!(sections(number), vec![(number, NUMBER)]);
    }
    assert_eq!(sections("1."), vec![("1", NUMBER), (".", PLAIN)]);
    assert_eq!(sections(".5"), vec![(".", PLAIN), ("5", NUMBER)]);
    assert_eq!(sections("1e"), vec![("1", NUMBER), ("e", IDENT)]);
    assert_eq!(sections("1e+"), vec![("1", NUMBER), ("e", IDENT), ("+", PLAIN)]);
    assert_eq!(sections("1.5e"), vec![("1.5", NUMBER), ("e", IDENT)]);
    assert_eq!(sections("1.e5"), vec![("1", NUMBER), (".", PLAIN), ("e5", IDENT)]);
    assert_eq!(sections("0x"), vec![("0", NUMBER), ("x", IDENT)]);
    assert_eq!(sections("0xg"), vec![("0", NUMBER), ("xg", IDENT)]);
    assert_eq!(sections("1x2"), vec![("1", NUMBER), ("x2", IDENT)]);
    assert_eq!(sections("0x1Fg"), vec![("0x1F", NUMBER), ("g", IDENT)]);
    assert_eq!(sections("1.2.3"), vec![("1.2", NUMBER), (".", PLAIN), ("3", NUMBER)]);
}

#[test]
fn strings_end_at_their_quote() {
    for string in ["\"\"", "''", "\"a'b\"", "'a\"b'", "\"a\\\"b\"", "'\\\\'", "\"two\nlines\""] {
        assert_eq!(sections(string), vec![(string, STRING)]);
    }
    assert_eq!(sections("\"\"\"a\""), vec![("\"\"", STRING), ("\"a\"", STRING)]);
}

#[test]
fn open_strings_are_no_tokens() {
    assert_eq!(sections("\"abc"), vec![("\"abc", PLAIN)]);
    assert_eq!(sections("'a\nb # c"), vec![("'a\nb # c", PLAIN)]);
    assert_eq!(sections("\"a\\\nb\""), vec![
        ("\"a", PLAIN),
        ("\\", PLAIN),
        ("\n", PLAIN),
        ("b", IDENT),
        ("\"", PLAIN),
    ]);
    assert_eq!(sections("'x\\"), vec![("'x", PLAIN), ("\\", PLAIN)]);
}

#[test]
fn comments_end_with_their_line() {
    assert_eq!(
        sections("#\n# é 'a\nb"),
        vec![("#", COMMENT), ("\n", PLAIN), ("# é 'a", COMMENT), ("\n", PLAIN), ("b", IDENT)]
    );
}

#[test]
fn other_characters_come_one_by_one() {
    assert_eq!(
        sections("!é$中"),
        vec![("!", PLAIN), ("é", PLAIN), ("$", PLAIN), ("中", PLAIN)]
    );
    assert_eq!(sections("aéb"), vec![("a", IDENT), ("é", PLAIN), ("b", IDENT)]);
    assert_eq!(
        sections("()[]{}.,:;@=+-*/%&|^~<>").len(),
        23
    );
    assert_eq!(sections(" \t\r\n\u{c} "), vec![(" \t\r\n\u{c} ", PLAIN)]);
    assert_eq!(sections("\u{b}\u{a0}"), vec![("\u{b}", PLAIN), ("\u{a0}", PLAIN)]);
}

#[test]
fn digits_of_every_script_are_digits() {
    assert_eq!(sections("\u{1d7ce}\u{1d7ff}"), vec![("\u{1d7ce}\u{1d7ff}", NUMBER)]);
    assert_eq!(sections("\u{ff11}.\u{ff12}"), vec![("\u{ff11}.\u{ff12}", NUMBER)]);
    assert_eq!(sections("\u{b2}"), vec![("\u{b2}", PLAIN)]);
    assert_eq!(sections("x\u{663}"), vec![("x", IDENT), ("\u{663}", NUMBER)]);
}

#[test]
fn tokens_have_colors() {
    assert_eq!(Highlighter::color_for(Some(PythonToken::Keyword)), KEYWORD);
    assert_eq!(Highlighter::color_for(Some(PythonToken::Punctuation)), PLAIN);
    assert_eq!(Highlighter::color_for(Some(PythonToken::Whitespace)), PLAIN);
    assert_eq!(Highlighter::color_for(None), PLAIN);
}
