//! Text handling shared by the whole library: white space, trimming, joining,
//! decimal numerals, searching and the order of strings.
use vstd::prelude::*;
use vstd::string::*;

verus! {

broadcast use vstd::string::group_string_axioms;

/// The characters with the Unicode property `White_Space`.
pub open spec fn is_white_space(c: char) -> bool {
    let n: u32 = c as u32;
    ||| 0x9 <= n <= 0xd
    ||| n == 0x20
    ||| n == 0x85
    ||| n == 0xa0
    ||| n == 0x1680
    ||| 0x2000 <= n <= 0x200a
    ||| n == 0x2028
    ||| n == 0x2029
    ||| n == 0x202f
    ||| n == 0x205f
    ||| n == 0x3000
}

/// Whether `c` is white space.
pub fn is_whitespace(c: char) -> (r: bool)
    ensures
        r == is_white_space(c),
{
    let n: u32 = c as u32;
    (0x9 <= n && n <= 0xd) || n == 0x20 || n == 0x85 || n == 0xa0 || n == 0x1680 || (0x2000 <= n
        && n <= 0x200a) || n == 0x2028 || n == 0x2029 || n == 0x202f || n == 0x205f || n == 0x3000
}

/// The characters that a trim takes off.
#[derive(Debug, Clone, Copy, PartialEq, Eq, Structural)]
pub enum CharClass {
    WhiteSpace,
    DoubleQuote,
}

pub open spec fn in_class(class: CharClass, c: char) -> bool {
    match class {
        CharClass::WhiteSpace => is_white_space(c),
        CharClass::DoubleQuote => c == '"',
    }
}

fn class_has(class: CharClass, c: char) -> (r: bool)
    ensures
        r == in_class(class, c),
{
    match class {
        CharClass::WhiteSpace => is_whitespace(c),
        CharClass::DoubleQuote => c == '"',
    }
}

/// `s` without its leading characters of `class`.
pub open spec fn trimmed_start(s: Seq<char>, class: CharClass) -> Seq<char>
    decreases s.len(),
{
    if s.len() > 0 && in_class(class, s[0]) {
        trimmed_start(s.drop_first(), class)
    } else {
        s
    }
}

/// `s` without its trailing characters of `class`.
pub open spec fn trimmed_end(s: Seq<char>, class: CharClass) -> Seq<char>
    decreases s.len(),
{
    if s.len() > 0 && in_class(class, s.last()) {
        trimmed_end(s.drop_last(), class)
    } else {
        s
    }
}

/// `s` without its leading and trailing characters of `class`.
pub open spec fn trimmed(s: Seq<char>, class: CharClass) -> Seq<char> {
    trimmed_end(trimmed_start(s, class), class)
}

/// `s` without the white space at both ends.
pub open spec fn trim_text(s: Seq<char>) -> Seq<char> {
    trimmed(s, CharClass::WhiteSpace)
}

/// A text with nothing but white space in it.
pub open spec fn is_blank_text(s: Seq<char>) -> bool {
    trim_text(s).len() == 0
}

/// The characters of `s`, one by one.
pub fn chars_of(s: &str) -> (r: Vec<char>)
    ensures
        r@ == s@,
{
    let mut r: Vec<char> = Vec::new();
    for c in it: s.chars()
        invariant
            it.seq() == s@,
            r@ == s@.take(it.index()),
    {
        r.push(c);
        proof {
            assert(s@.take(it.index() + 1) =~= s@.take(it.index()).push(c));
        }
    }
    proof {
        assert(s@.take(s@.len() as int) =~= s@);
    }
    r
}

/// Takes the characters of `class` off both ends of `s`.
pub fn trim_class(s: &str, class: CharClass) -> (r: String)
    ensures
        r@ == trimmed(s@, class),
{
    let chars = chars_of(s);
    let n: usize = chars.len();
    let mut i: usize = 0;
    proof {
        assert(s@.skip(0) =~= s@);
    }
    while i < n && class_has(class, chars[i])
        invariant
            i <= n,
            n == chars@.len(),
            chars@ == s@,
            trimmed_start(s@, class) == trimmed_start(s@.skip(i as int), class),
        decreases n - i,
    {
        proof {
            assert(s@.skip(i as int).drop_first() =~= s@.skip(i + 1));
        }
        i = i + 1;
    }
    proof {
        assert(trimmed_start(s@, class) == s@.skip(i as int));
        assert(s@.skip(i as int) =~= s@.subrange(i as int, n as int));
    }
    let mut j: usize = n;
    while j > i && class_has(class, chars[j - 1])
        invariant
            i <= j <= n,
            n == chars@.len(),
            chars@ == s@,
            trimmed_start(s@, class) == s@.subrange(i as int, n as int),
            trimmed_end(s@.subrange(i as int, n as int), class) == trimmed_end(
                s@.subrange(i as int, j as int),
                class,
            ),
        decreases j,
    {
        proof {
            assert(s@.subrange(i as int, j as int).drop_last() =~= s@.subrange(i as int, j - 1));
        }
        j = j - 1;
    }
    String::from_str(s.substring_char(i, j))
}

/// Takes the white space off both ends of `s`.
pub fn trim(s: &str) -> (r: String)
    ensures
        r@ == trim_text(s@),
{
    trim_class(s, CharClass::WhiteSpace)
}

/// Whether `s` holds nothing but white space.
pub fn is_blank(s: &str) -> (r: bool)
    ensures
        r == is_blank_text(s@),
{
    let t = trim(s);
    t.as_str().is_empty()
}

proof fn lemma_trimmed_start(s: Seq<char>, class: CharClass)
    ensures
        trimmed_start(s, class).len() <= s.len(),
        trimmed_start(s, class) == s.skip(s.len() - trimmed_start(s, class).len()),
        trimmed_start(s, class).len() > 0 ==> !in_class(class, trimmed_start(s, class)[0]),
    decreases s.len(),
{
    if s.len() > 0 && in_class(class, s[0]) {
        lemma_trimmed_start(s.drop_first(), class);
        let k: int = s.len() - trimmed_start(s, class).len();
        assert(s.skip(k) =~= s.drop_first().skip(k - 1));
    } else {
        assert(s.skip(0) =~= s);
    }
}

proof fn lemma_trimmed_end(s: Seq<char>, class: CharClass)
    ensures
        trimmed_end(s, class).len() <= s.len(),
        trimmed_end(s, class) == s.take(trimmed_end(s, class).len() as int),
        trimmed_end(s, class).len() > 0 ==> !in_class(class, trimmed_end(s, class).last()),
    decreases s.len(),
{
    if s.len() > 0 && in_class(class, s.last()) {
        lemma_trimmed_end(s.drop_last(), class);
        let k: int = trimmed_end(s, class).len() as int;
        assert(s.take(k) =~= s.drop_last().take(k));
    } else {
        assert(s.take(s.len() as int) =~= s);
    }
}

/// A trimmed text has nothing left to trim.
pub proof fn trim_is_idempotent(s: Seq<char>, class: CharClass)
    ensures
        trimmed(trimmed(s, class), class) == trimmed(s, class),
{
    let a = trimmed_start(s, class);
    let t = trimmed(s, class);
    lemma_trimmed_start(s, class);
    lemma_trimmed_end(a, class);
    if t.len() > 0 {
        assert(t[0] == a[0]);
        assert(trimmed_start(t, class) == t);
        assert(trimmed_end(t, class) == t);
    }
}

/// The texts of `parts` one after the other, with `sep` between them.
pub open spec fn joined(parts: Seq<Seq<char>>, sep: Seq<char>) -> Seq<char>
    decreases parts.len(),
{
    if parts.len() == 0 {
        Seq::empty()
    } else if parts.len() == 1 {
        parts[0]
    } else {
        joined(parts.drop_last(), sep) + sep + parts.last()
    }
}

/// The views of a sequence of strings.
pub open spec fn texts(v: Seq<String>) -> Seq<Seq<char>> {
    v.map_values(|s: String| s@)
}

/// The view of an optional string.
pub open spec fn opt_text(o: Option<String>) -> Option<Seq<char>> {
    match o {
        Some(s) => Some(s@),
        None => None,
    }
}

/// A copy of an optional string.
pub fn clone_opt(o: &Option<String>) -> (r: Option<String>)
    ensures
        opt_text(r) == opt_text(*o),
{
    match o {
        Some(s) => Some(s.clone()),
        None => None,
    }
}

/// A copy of a list of strings.
pub fn clone_strings(v: &Vec<String>) -> (r: Vec<String>)
    ensures
        texts(r@) == texts(v@),
{
    let mut r: Vec<String> = Vec::new();
    let mut i: usize = 0;
    while i < v.len()
        invariant
            i <= v@.len(),
            r@.len() == i,
            forall|k: int| 0 <= k < i ==> (#[trigger] r@[k])@ == v@[k]@,
        decreases v@.len() - i,
    {
        r.push(v[i].clone());
        i = i + 1;
    }
    proof {
        assert(texts(r@) =~= texts(v@));
    }
    r
}

/// Joins `parts`, with `sep` between them.
pub fn join(parts: &Vec<String>, sep: &str) -> (r: String)
    ensures
        r@ == joined(texts(parts@), sep@),
{
    let mut r = String::new();
    let mut i: usize = 0;
    let ghost all = texts(parts@);
    while i < parts.len()
        invariant
            i <= parts@.len(),
            all == texts(parts@),
            r@ == joined(all.take(i as int), sep@),
        decreases parts@.len() - i,
    {
        proof {
            assert(all.take(i + 1).drop_last() =~= all.take(i as int));
            assert(all.take(i + 1).last() == parts@[i as int]@);
        }
        if i > 0 {
            r.append(sep);
        }
        r.append(parts[i].as_str());
        proof {
            if i == 0 {
                assert(r@ =~= all.take(1)[0]);
            }
        }
        i = i + 1;
    }
    proof {
        assert(all.take(all.len() as int) =~= all);
    }
    r
}

/// The decimal digit of value `d`.
pub open spec fn digit_char(d: int) -> char {
    if d == 0 {
        '0'
    } else if d == 1 {
        '1'
    } else if d == 2 {
        '2'
    } else if d == 3 {
        '3'
    } else if d == 4 {
        '4'
    } else if d == 5 {
        '5'
    } else if d == 6 {
        '6'
    } else if d == 7 {
        '7'
    } else if d == 8 {
        '8'
    } else {
        '9'
    }
}

/// The decimal numeral of `n`, without leading zeros.
pub open spec fn decimal_text(n: nat) -> Seq<char>
    decreases n,
{
    if n < 10 {
        seq![digit_char(n as int)]
    } else {
        decimal_text(n / 10).push(digit_char((n % 10) as int))
    }
}

fn digit_str(d: u64) -> (r: &'static str)
    requires
        d < 10,
    ensures
        r@ == seq![digit_char(d as int)],
{
    proof {
        reveal_strlit("0");
        reveal_strlit("1");
        reveal_strlit("2");
        reveal_strlit("3");
        reveal_strlit("4");
        reveal_strlit("5");
        reveal_strlit("6");
        reveal_strlit("7");
        reveal_strlit("8");
        reveal_strlit("9");
    }
    let r: &'static str = if d == 0 {
        "0"
    } else if d == 1 {
        "1"
    } else if d == 2 {
        "2"
    } else if d == 3 {
        "3"
    } else if d == 4 {
        "4"
    } else if d == 5 {
        "5"
    } else if d == 6 {
        "6"
    } else if d == 7 {
        "7"
    } else if d == 8 {
        "8"
    } else {
        "9"
    };
    proof {
        assert(r@ =~= seq![digit_char(d as int)]);
    }
    r
}

/// The decimal numeral of `n`.
pub fn decimal(n: u64) -> (r: String)
    ensures
        r@ == decimal_text(n as nat),
    decreases n,
{
    if n < 10 {
        String::from_str(digit_str(n))
    } else {
        let mut r = decimal(n / 10);
        r.append(digit_str(n % 10));
        proof {
            assert(r@ =~= decimal_text(n as nat));
        }
        r
    }
}

/// The decimal numeral of a count.
pub fn decimal_count(n: usize) -> (r: String)
    ensures
        r@ == decimal_text(n as nat),
{
    decimal(n as u64)
}

/// Whether `s` begins with `head`.
pub open spec fn has_prefix(s: Seq<char>, head: Seq<char>) -> bool {
    head.len() <= s.len() && s.take(head.len() as int) == head
}

/// Whether `s` ends with `tail`.
pub open spec fn has_suffix(s: Seq<char>, tail: Seq<char>) -> bool {
    tail.len() <= s.len() && s.skip(s.len() - tail.len()) == tail
}

fn same_at(s: &Vec<char>, from: usize, part: &Vec<char>) -> (r: bool)
    requires
        from + part@.len() <= s@.len(),
    ensures
        r == (s@.subrange(from as int, from + part@.len()) == part@),
{
    assert(s.len() <= usize::MAX);
    let mut i: usize = 0;
    while i < part.len()
        invariant
            i <= part@.len(),
            from + part@.len() <= s@.len() <= usize::MAX,
            forall|k: int| 0 <= k < i ==> s@[from + k] == part@[k],
        decreases part@.len() - i,
    {
        if s[from + i] != part[i] {
            proof {
                assert(s@.subrange(from as int, from + part@.len())[i as int] != part@[i as int]);
            }
            return false;
        }
        i = i + 1;
    }
    proof {
        assert(s@.subrange(from as int, from + part@.len()) =~= part@);
    }
    true
}

/// Whether `s` begins with `head`.
pub fn starts_with(s: &str, head: &str) -> (r: bool)
    ensures
        r == has_prefix(s@, head@),
{
    let a = chars_of(s);
    let b = chars_of(head);
    if a.len() < b.len() {
        return false;
    }
    proof {
        assert(s@.take(head@.len() as int) =~= s@.subrange(0, head@.len() as int));
    }
    same_at(&a, 0, &b)
}

/// Whether `s` ends with `tail`.
pub fn ends_with(s: &str, tail: &str) -> (r: bool)
    ensures
        r == has_suffix(s@, tail@),
{
    let a = chars_of(s);
    let b = chars_of(tail);
    if a.len() < b.len() {
        return false;
    }
    let from: usize = a.len() - b.len();
    proof {
        assert(s@.skip(s@.len() - tail@.len()) =~= s@.subrange(from as int, from + tail@.len()));
    }
    same_at(&a, from, &b)
}

/// Whether `part` occurs somewhere in `s`.
pub open spec fn occurs_in(s: Seq<char>, part: Seq<char>) -> bool {
    exists|i: int| 0 <= i <= s.len() - part.len() && #[trigger] s.subrange(i, i + part.len()) == part
}

/// Whether `part` occurs somewhere in `s`.
pub fn contains(s: &str, part: &str) -> (r: bool)
    ensures
        r == occurs_in(s@, part@),
{
    let a = chars_of(s);
    let b = chars_of(part);
    if a.len() < b.len() {
        return false;
    }
    let last: usize = a.len() - b.len();
    let mut i: usize = 0;
    loop
        invariant
            a@ == s@,
            b@ == part@,
            last == a@.len() - b@.len(),
            i <= last,
            forall|k: int| 0 <= k < i ==> #[trigger] s@.subrange(k, k + part@.len()) != part@,
        decreases last - i,
    {
        if same_at(&a, i, &b) {
            return true;
        }
        if i == last {
            return false;
        }
        i = i + 1;
    }
}

/// Whether two texts are the same.
pub fn same_text(a: &str, b: &str) -> (r: bool)
    ensures
        r == (a@ == b@),
{
    let x = chars_of(a);
    let y = chars_of(b);
    if x.len() != y.len() {
        return false;
    }
    proof {
        assert(a@.subrange(0, b@.len() as int) =~= a@);
    }
    same_at(&x, 0, &y)
}

/// How two values stand to each other in an order.
#[derive(Debug, Clone, Copy, PartialEq, Eq, Structural)]
pub enum Order {
    Less,
    Equal,
    Greater,
}

/// The order of strings: by the first character in which they differ, and a
/// text before those that it begins.
pub open spec fn text_order(a: Seq<char>, b: Seq<char>) -> Order
    decreases a.len(),
{
    if a.len() == 0 {
        if b.len() == 0 {
            Order::Equal
        } else {
            Order::Less
        }
    } else if b.len() == 0 {
        Order::Greater
    } else if (a[0] as int) < (b[0] as int) {
        Order::Less
    } else if (a[0] as int) > (b[0] as int) {
        Order::Greater
    } else {
        text_order(a.drop_first(), b.drop_first())
    }
}

/// Whether `a` comes before `b`.
pub open spec fn text_less(a: Seq<char>, b: Seq<char>) -> bool {
    text_order(a, b) == Order::Less
}

/// Tells the order of two strings.
pub fn order_of(a: &str, b: &str) -> (r: Order)
    ensures
        r == text_order(a@, b@),
{
    let x = chars_of(a);
    let y = chars_of(b);
    let mut i: usize = 0;
    proof {
        assert(a@.skip(0) =~= a@);
        assert(b@.skip(0) =~= b@);
    }
    while i < x.len() && i < y.len()
        invariant
            x@ == a@,
            y@ == b@,
            i <= x@.len(),
            i <= y@.len(),
            text_order(a@, b@) == text_order(a@.skip(i as int), b@.skip(i as int)),
        decreases x@.len() - i,
    {
        let p: char = x[i];
        let q: char = y[i];
        if p < q {
            return Order::Less;
        }
        if p > q {
            return Order::Greater;
        }
        proof {
            assert(a@.skip(i as int).drop_first() =~= a@.skip(i + 1));
            assert(b@.skip(i as int).drop_first() =~= b@.skip(i + 1));
        }
        i = i + 1;
    }
    if i < x.len() {
        Order::Greater
    } else if i < y.len() {
        Order::Less
    } else {
        Order::Equal
    }
}

/// Only a text itself stands level with it.
pub proof fn text_order_equal(a: Seq<char>, b: Seq<char>)
    ensures
        text_order(a, b) == Order::Equal <==> a == b,
    decreases a.len(),
{
    if a.len() > 0 && b.len() > 0 {
        text_order_equal(a.drop_first(), b.drop_first());
        if a[0] == b[0] && a.drop_first() == b.drop_first() {
            assert(a =~= seq![a[0]] + a.drop_first());
            assert(b =~= seq![b[0]] + b.drop_first());
        }
    } else if a.len() == 0 && b.len() == 0 {
        assert(a =~= b);
    }
}

/// Turning the two texts round turns the order round.
pub proof fn text_order_flips(a: Seq<char>, b: Seq<char>)
    ensures
        text_less(a, b) <==> text_order(b, a) == Order::Greater,
    decreases a.len(),
{
    if a.len() > 0 && b.len() > 0 {
        text_order_flips(a.drop_first(), b.drop_first());
    }
}

/// The order of strings is transitive.
pub proof fn text_order_transitive(a: Seq<char>, b: Seq<char>, c: Seq<char>)
    requires
        text_less(a, b),
        text_less(b, c),
    ensures
        text_less(a, c),
    decreases a.len(),
{
    if a.len() > 0 && b.len() > 0 && c.len() > 0 {
        if a[0] == b[0] && b[0] == c[0] {
            text_order_transitive(a.drop_first(), b.drop_first(), c.drop_first());
        }
    }
}

} // verus!
