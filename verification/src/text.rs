//! Small pieces of text that messages and names are put together from.

use vstd::prelude::*;

verus! {

/// The character that stands for the decimal digit `d`.
pub open spec fn digit_char(d: nat) -> char
    recommends
        d < 10,
{
    (48 + d) as char
}

/// `n` written in decimal, without leading zeros.
pub open spec fn decimal(n: nat) -> Seq<char>
    decreases n,
{
    if n < 10 {
        seq![digit_char(n)]
    } else {
        decimal(n / 10).push(digit_char(n % 10))
    }
}

/// The one-character text of a decimal digit.
fn digit_text(d: u8) -> (text: String)
    requires
        d < 10,
    ensures
        text@ == seq![digit_char(d as nat)],
{
    proof {
        reveal_strlit("0");
        reveal_strlit("1");
        reveal_strlit("2");
        reveal_strlit("3");
        reveal_strlit("4");
        reveal_strlit("5");
        reveal_strlit("6");
        reveal_strlit("7");
        reveal_strlit("8");
        reveal_strlit("9");
    }
    let digit = match d {
        0 => "0",
        1 => "1",
        2 => "2",
        3 => "3",
        4 => "4",
        5 => "5",
        6 => "6",
        7 => "7",
        8 => "8",
        _ => "9",
    };
    let text = digit.to_owned();
    assert(text@ =~= seq![digit_char(d as nat)]);
    text
}

/// Writes `n` in decimal.
pub fn decimal_text(n: u128) -> (text: String)
    ensures
        text@ == decimal(n as nat),
    decreases n,
{
    if n < 10 {
        digit_text(n as u8)
    } else {
        let mut text = decimal_text(n / 10);
        let last = digit_text((n % 10) as u8);
        text.append(last.as_str());
        assert(text@ =~= decimal(n as nat));
        text
    }
}

/// Puts `tail` behind `head`.
pub fn joined(head: &str, tail: &str) -> (text: String)
    ensures
        text@ == head@ + tail@,
{
    let mut text = head.to_owned();
    text.append(tail);
    text
}

/// Different numbers are written differently.
pub proof fn decimal_is_injective(a: nat, b: nat)
    requires
        decimal(a) == decimal(b),
    ensures
        a == b,
    decreases a,
{
    if a < 10 && b < 10 {
        digit_char_value(a);
        digit_char_value(b);
        assert(decimal(a)[0] == digit_char(a));
        assert(decimal(b)[0] == digit_char(b));
    } else if a >= 10 && b >= 10 {
        let head_a = decimal(a / 10);
        let head_b = decimal(b / 10);
        assert(decimal(a).last() == digit_char(a % 10));
        assert(decimal(b).last() == digit_char(b % 10));
        assert(decimal(a).drop_last() =~= head_a);
        assert(decimal(b).drop_last() =~= head_b);
        decimal_is_injective(a / 10, b / 10);
        digit_char_value(a % 10);
        digit_char_value(b % 10);
        assert(a == 10 * (a / 10) + a % 10);
        assert(b == 10 * (b / 10) + b % 10);
    } else if a < 10 {
        decimal_is_not_empty(b / 10);
        assert(decimal(b).len() >= 2);
    } else {
        decimal_is_not_empty(a / 10);
        assert(decimal(a).len() >= 2);
    }
}

proof fn digit_char_value(d: nat)
    requires
        d < 10,
    ensures
        digit_char(d) as int == 48 + d,
{
}

proof fn decimal_is_not_empty(n: nat)
    ensures
        decimal(n).len() >= 1,
    decreases n,
{
    if n >= 10 {
        decimal_is_not_empty(n / 10);
    }
}

/// A decimal number holds digits only.
proof fn decimal_holds_digits(n: nat, i: int)
    requires
        0 <= i < decimal(n).len(),
    ensures
        48 <= decimal(n)[i] as int <= 57,
    decreases n,
{
    if n < 10 {
        digit_char_value(n);
    } else if i < decimal(n / 10).len() {
        decimal_holds_digits(n / 10, i);
    } else {
        digit_char_value(n % 10);
    }
}

/// A text that is a number, an underscore and a rest has one number and one rest.
pub proof fn leading_number_is_told(a: nat, b: nat, tail_a: Seq<char>, tail_b: Seq<char>)
    requires
        decimal(a) + seq!['_'] + tail_a == decimal(b) + seq!['_'] + tail_b,
    ensures
        a == b,
        tail_a == tail_b,
{
    let whole_a = decimal(a) + seq!['_'] + tail_a;
    let whole_b = decimal(b) + seq!['_'] + tail_b;
    let m = decimal(a).len() as int;
    let n = decimal(b).len() as int;
    assert(whole_a[m] == '_');
    assert(whole_b[n] == '_');
    if m < n {
        decimal_holds_digits(b, m);
        assert(whole_b[m] == decimal(b)[m]);
    } else if n < m {
        decimal_holds_digits(a, n);
        assert(whole_a[n] == decimal(a)[n]);
    }
    assert(decimal(a) =~= whole_a.take(m));
    assert(decimal(b) =~= whole_b.take(n));
    decimal_is_injective(a, b);
    assert(tail_a =~= whole_a.skip(m + 1));
    assert(tail_b =~= whole_b.skip(n + 1));
}

/// The characters of a text.
pub fn chars_of(text: &str) -> (chars: Vec<char>)
    ensures
        chars@ == text@,
{
    let mut chars: Vec<char> = Vec::new();
    for c in it: text.chars()
        invariant
            it.seq() == text@,
            chars@ == it.seq().take(it.index() as int),
    {
        chars.push(c);
        assert(it.seq().take(it.index() + 1) =~= it.seq().take(it.index() as int).push(c));
    }
    assert(text@.take(text@.len() as int) =~= text@);
    chars
}

/// What some texts say.
pub open spec fn texts_of(texts: Seq<String>) -> Seq<Seq<char>> {
    texts.map_values(|text: String| text@)
}

/// Whether one of the texts says the same as `text`.
pub fn contains_text(texts: &Vec<String>, text: &String) -> (found: bool)
    ensures
        found == texts_of(texts@).contains(text@),
{
    let mut i: usize = 0;
    while i < texts.len()
        invariant
            i <= texts@.len(),
            forall|j: int| 0 <= j < i ==> (#[trigger] texts@[j])@ != text@,
        decreases texts@.len() - i,
    {
        if texts[i] == *text {
            assert(texts_of(texts@)[i as int] == text@);
            return true;
        }
        i = i + 1;
    }
    assert(!texts_of(texts@).contains(text@)) by {
        if texts_of(texts@).contains(text@) {
            let j = choose|j: int| 0 <= j < texts@.len() && texts_of(texts@)[j] == text@;
            assert(texts@[j]@ == text@);
        }
    }
    false
}

/// The number that some decimal digits stand for.
pub open spec fn value_of(digits: Seq<char>) -> int
    decreases digits.len(),
{
    if digits.len() == 0 {
        0
    } else {
        10 * value_of(digits.drop_last()) + (digits.last() as u32 - 48)
    }
}

/// What is written for a number are digits that stand for it, without a zero in front
/// of others.
pub proof fn decimal_stands_for_the_number(n: nat)
    ensures
        value_of(decimal(n)) == n,
        decimal(n).len() > 0,
        decimal(n).len() > 1 ==> decimal(n)[0] != '0',
        forall|i: int| 0 <= i < decimal(n).len() ==> '0' <= #[trigger] decimal(n)[i] <= '9',
    decreases n,
{
    decimal_is_not_empty(n);
    assert forall|i: int| 0 <= i < decimal(n).len() implies '0' <= #[trigger] decimal(n)[i]
        <= '9' by {
        decimal_holds_digits(n, i);
    }
    if n < 10 {
        digit_char_value(n);
        assert(decimal(n).drop_last() =~= Seq::<char>::empty());
        assert(value_of(decimal(n).drop_last()) == 0);
    } else {
        decimal_stands_for_the_number(n / 10);
        digit_char_value(n % 10);
        assert(decimal(n).drop_last() =~= decimal(n / 10));
        assert(decimal(n)[0] == decimal(n / 10)[0]);
        if decimal(n / 10).len() == 1 {
            assert(decimal(n / 10) =~= seq![decimal(n / 10)[0]]);
            if n / 10 >= 10 {
                decimal_is_not_empty(n / 10 / 10);
            }
            digit_char_value(n / 10);
        }
    }
}

} // verus!
