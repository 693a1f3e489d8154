//! What trimming, joining, numerals and the order of texts come to, said of
//! their characters.
use crate::text::{
    decimal_text, has_prefix, has_suffix, in_class, is_blank_text, is_white_space, joined,
    text_order, trim_text, trimmed, trimmed_end, trimmed_start, CharClass, Order,
};
use vstd::prelude::*;

verus! {

proof fn lemma_start(s: Seq<char>, class: CharClass) -> (i: int)
    ensures
        0 <= i <= s.len(),
        trimmed_start(s, class) == s.subrange(i, s.len() as int),
        forall|k: int| 0 <= k < i ==> in_class(class, #[trigger] s[k]),
        i < s.len() ==> !in_class(class, s[i]),
    decreases s.len(),
{
    if s.len() > 0 && in_class(class, s[0]) {
        let rest = s.drop_first();
        let j = lemma_start(rest, class);
        assert(rest.subrange(j, rest.len() as int) =~= s.subrange(j + 1, s.len() as int));
        assert forall|k: int| 0 <= k < j + 1 implies in_class(class, #[trigger] s[k]) by {
            if k > 0 {
                assert(rest[k - 1] == s[k]);
            }
        }
        j + 1
    } else {
        assert(s.subrange(0, s.len() as int) =~= s);
        0
    }
}

proof fn lemma_end(s: Seq<char>, class: CharClass) -> (j: int)
    ensures
        0 <= j <= s.len(),
        trimmed_end(s, class) == s.subrange(0, j),
        forall|k: int| j <= k < s.len() ==> in_class(class, #[trigger] s[k]),
        j > 0 ==> !in_class(class, s[j - 1]),
    decreases s.len(),
{
    if s.len() > 0 && in_class(class, s.last()) {
        let front = s.drop_last();
        let j = lemma_end(front, class);
        assert(front.subrange(0, j) =~= s.subrange(0, j));
        assert forall|k: int| j <= k < s.len() implies in_class(class, #[trigger] s[k]) by {
            if k < front.len() {
                assert(front[k] == s[k]);
            }
        }
        j
    } else {
        assert(s.subrange(0, s.len() as int) =~= s);
        s.len() as int
    }
}

proof fn lemma_trimmed(s: Seq<char>, class: CharClass) -> (ends: (int, int))
    ensures
        0 <= ends.0 <= ends.1 <= s.len(),
        trimmed(s, class) == s.subrange(ends.0, ends.1),
        forall|k: int|
            0 <= k < ends.0 || ends.1 <= k < s.len() ==> in_class(class, #[trigger] s[k]),
        ends.0 < ends.1 ==> !in_class(class, s[ends.0]) && !in_class(class, s[ends.1 - 1]),
{
    let i = lemma_start(s, class);
    let a = trimmed_start(s, class);
    let j = lemma_end(a, class);
    assert(a.subrange(0, j) =~= s.subrange(i, i + j));
    assert forall|k: int| 0 <= k < i || i + j <= k < s.len() implies in_class(
        class,
        #[trigger] s[k],
    ) by {
        if k >= i {
            assert(a[k - i] == s[k]);
        }
    }
    if 0 < j {
        assert(a[0] == s[i]);
        assert(a[j - 1] == s[i + j - 1]);
    }
    (i, i + j)
}

/// A trim takes the white space off both ends and nothing else: what is left
/// is a piece of the text with only white space around it, and has none at its
/// own ends.
pub proof fn trim_takes_off_white_space(s: Seq<char>)
    ensures
        exists|i: int, j: int|
            0 <= i <= j <= s.len() && trim_text(s) == #[trigger] s.subrange(i, j) && (forall|k: int|
                0 <= k < i || j <= k < s.len() ==> is_white_space(#[trigger] s[k])) && (i < j
                ==> !is_white_space(s[i]) && !is_white_space(s[j - 1])),
{
    let (i, j) = lemma_trimmed(s, CharClass::WhiteSpace);
    assert(trim_text(s) == s.subrange(i, j));
    assert forall|k: int| 0 <= k < i || j <= k < s.len() implies is_white_space(#[trigger] s[k]) by {
        assert(in_class(CharClass::WhiteSpace, s[k]));
    }
}

/// The same of quotation marks.
pub proof fn trim_takes_off_quotation_marks(s: Seq<char>)
    ensures
        exists|i: int, j: int|
            0 <= i <= j <= s.len() && trimmed(s, CharClass::DoubleQuote) == #[trigger] s.subrange(
                i,
                j,
            ) && (forall|k: int| 0 <= k < i || j <= k < s.len() ==> #[trigger] s[k] == '"') && (i
                < j ==> s[i] != '"' && s[j - 1] != '"'),
{
    let (i, j) = lemma_trimmed(s, CharClass::DoubleQuote);
    assert(trimmed(s, CharClass::DoubleQuote) == s.subrange(i, j));
    assert forall|k: int| 0 <= k < i || j <= k < s.len() implies #[trigger] s[k] == '"' by {
        assert(in_class(CharClass::DoubleQuote, s[k]));
    }
}

/// A text is blank where all of its characters are white space.
pub proof fn blank_is_all_white_space(s: Seq<char>)
    ensures
        is_blank_text(s) <==> forall|k: int| 0 <= k < s.len() ==> is_white_space(#[trigger] s[k]),
{
    let (i, j) = lemma_trimmed(s, CharClass::WhiteSpace);
    if i == j {
        assert forall|k: int| 0 <= k < s.len() implies is_white_space(#[trigger] s[k]) by {
            assert(in_class(CharClass::WhiteSpace, s[k]));
        }
    } else {
        assert(!is_white_space(s[i]));
    }
}

/// Of the characters that fit in seven bits, the space and those from the tab
/// to the carriage return are white space. The ideographic space and the space
/// that allows no break are white space too.
pub proof fn spaces_and_tabs_are_white_space(c: char)
    ensures
        (c as u32) < 0x80 ==> (is_white_space(c) <==> c == ' ' || '\t' as u32 <= c as u32
            <= '\r' as u32),
        is_white_space('\u{a0}') && is_white_space('\u{3000}'),
{
}

/// Beyond the characters that fit in seven bits, white space is the control
/// character that goes to the next line, the spaces of typography from the en
/// quad to the hair space and a few more, those of single scripts, the separators
/// of lines and paragraphs, and nothing else.
pub proof fn few_characters_are_white_space(c: char)
    ensures
        (c as u32) >= 0x80 ==> (is_white_space(c) <==> {
            ||| c == '\u{85}'
            ||| c == '\u{a0}'
            ||| c == '\u{1680}'
            ||| '\u{2000}' <= c <= '\u{200a}'
            ||| c == '\u{2028}'
            ||| c == '\u{2029}'
            ||| c == '\u{202f}'
            ||| c == '\u{205f}'
            ||| c == '\u{3000}'
        }),
{
}

/// The order of two texts that agree in their first `i` characters and no
/// further: that of the characters behind; and where one of them ends there,
/// it comes first.
pub proof fn text_order_goes_by_first_difference(a: Seq<char>, b: Seq<char>, i: int)
    requires
        0 <= i <= a.len(),
        i <= b.len(),
        forall|k: int| 0 <= k < i ==> #[trigger] a[k] == b[k],
    ensures
        i < a.len() && i < b.len() && (a[i] as int) < (b[i] as int) ==> text_order(a, b)
            == Order::Less,
        i < a.len() && i < b.len() && (a[i] as int) > (b[i] as int) ==> text_order(a, b)
            == Order::Greater,
        i == a.len() && i < b.len() ==> text_order(a, b) == Order::Less,
        i == b.len() && i < a.len() ==> text_order(a, b) == Order::Greater,
        i == a.len() && i == b.len() ==> text_order(a, b) == Order::Equal,
    decreases a.len(),
{
    if i > 0 {
        assert(a[0] == b[0]);
        assert forall|k: int| 0 <= k < i - 1 implies #[trigger] a.drop_first()[k]
            == b.drop_first()[k] by {
            assert(a[k + 1] == b[k + 1]);
        }
        text_order_goes_by_first_difference(a.drop_first(), b.drop_first(), i - 1);
    }
}

/// Joined texts stand one behind the other, with the separator between any two
/// of them and nowhere else.
pub proof fn joined_texts_follow_each_other(parts: Seq<Seq<char>>, last: Seq<char>, sep: Seq<char>)
    ensures
        joined(Seq::<Seq<char>>::empty(), sep) == Seq::<char>::empty(),
        joined(seq![last], sep) == last,
        parts.len() > 0 ==> joined(parts.push(last), sep) == joined(parts, sep) + sep + last,
{
    assert(parts.push(last).drop_last() =~= parts);
}

/// The number that decimal digits stand for.
pub open spec fn value_of(digits: Seq<char>) -> int
    decreases digits.len(),
{
    if digits.len() == 0 {
        0
    } else {
        value_of(digits.drop_last()) * 10 + (digits.last() as u32 - '0' as u32)
    }
}

/// A numeral is made of decimal digits that stand for its number, and does not
/// begin with a zero unless that is all.
pub proof fn numeral_stands_for_its_number(n: nat)
    ensures
        value_of(decimal_text(n)) == n,
        forall|k: int|
            0 <= k < decimal_text(n).len() ==> '0' as u32 <= (#[trigger] decimal_text(n)[k]) as u32
                <= '9' as u32,
        decimal_text(n).len() > 0,
        decimal_text(n)[0] == '0' ==> n == 0 && decimal_text(n).len() == 1,
    decreases n,
{
    reveal_with_fuel(value_of, 2);
    let s = decimal_text(n);
    if n < 10 {
        assert(s.drop_last().len() == 0);
    } else {
        let front = decimal_text(n / 10);
        numeral_stands_for_its_number(n / 10);
        assert(s.drop_last() =~= front);
        assert(s.last() as u32 - '0' as u32 == n % 10);
        assert(s[0] == front[0]);
        assert forall|k: int| 0 <= k < s.len() implies '0' as u32 <= (#[trigger] s[k]) as u32
            <= '9' as u32 by {
            if k < front.len() {
                assert(s[k] == front[k]);
            }
        }
    }
}

/// A text begins with `head` and ends with `tail` exactly where more characters
/// behind the one, or before the other, make it up.
pub proof fn prefix_and_suffix_are_ends(s: Seq<char>, head: Seq<char>, tail: Seq<char>)
    ensures
        has_prefix(head + tail, head),
        has_suffix(head + tail, tail),
        has_prefix(s, head) ==> head.len() <= s.len() && s == head + s.skip(head.len() as int),
        has_suffix(s, tail) ==> tail.len() <= s.len() && s == s.take(s.len() - tail.len()) + tail,
{
    assert((head + tail).take(head.len() as int) =~= head);
    assert((head + tail).skip(head.len() as int) =~= tail);
    if has_prefix(s, head) {
        assert(s =~= s.take(head.len() as int) + s.skip(head.len() as int));
    }
    if has_suffix(s, tail) {
        let n = s.len() - tail.len();
        assert(s =~= s.take(n) + s.skip(n));
    }
}

} // verus!
