//! Text: how numbers are written, and the comparisons of strings that the tools make.
//!
//! Every string is modelled by its sequence of characters.
use vstd::prelude::*;
use vstd::relations::*;
use vstd::string::*;

verus! {

/// The digits of the numbers below, by value.
pub open spec fn digit(value: int) -> char {
    "0123456789abcdef"@[value]
}

/// `n` in decimal, without leading zeros.
pub open spec fn decimal(n: nat) -> Seq<char>
    decreases n,
{
    if n < 10 {
        seq![digit(n as int)]
    } else {
        decimal(n / 10).push(digit((n % 10) as int))
    }
}

/// The last `width` hexadecimal digits of `n`, with leading zeros.
pub open spec fn hex(n: nat, width: nat) -> Seq<char>
    decreases width,
{
    if width == 0 {
        Seq::empty()
    } else {
        hex(n / 16, (width - 1) as nat).push(digit((n % 16) as int))
    }
}

/// The digits after the point of `thousandths` thousandths, without trailing zeros.
pub open spec fn fraction(thousandths: nat) -> Seq<char> {
    let first = digit((thousandths / 100) as int);
    let second = digit((thousandths / 10 % 10) as int);
    let third = digit((thousandths % 10) as int);
    if thousandths % 100 == 0 {
        seq![first]
    } else if thousandths % 10 == 0 {
        seq![first, second]
    } else {
        seq![first, second, third]
    }
}

/// `ms` milliseconds in seconds: the shortest decimal that names the value.
pub open spec fn seconds(ms: nat) -> Seq<char> {
    if ms % 1000 == 0 {
        decimal(ms / 1000)
    } else {
        decimal(ms / 1000) + "."@ + fraction(ms % 1000)
    }
}

/// Below this many milliseconds a duration divided by a thousand in double precision is written
/// as exactly the decimal of [`seconds`].
pub const EXACT_SECONDS_LIMIT_MS: u64 = 1_000_000_000_000_000;

/// `needle` occurs in `text` at `at`.
pub open spec fn occurs_at(text: Seq<char>, needle: Seq<char>, at: int) -> bool {
    0 <= at && at + needle.len() <= text.len() && text.subrange(at, at + needle.len()) == needle
}

/// `needle` occurs in `text`.
pub open spec fn contains(text: Seq<char>, needle: Seq<char>) -> bool {
    exists|at: int| occurs_at(text, needle, at)
}

/// The order of strings: by the first character in which they differ, a prefix first.
pub open spec fn text_le(a: Seq<char>, b: Seq<char>) -> bool
    decreases a.len(),
{
    if a.len() == 0 {
        true
    } else if b.len() == 0 {
        false
    } else if a[0] != b[0] {
        a[0] < b[0]
    } else {
        text_le(a.drop_first(), b.drop_first())
    }
}

/// The characters with the Unicode property `White_Space`.
pub open spec fn is_white_space(c: char) -> bool {
    ||| '\u{9}' <= c <= '\u{d}'
    ||| c == ' '
    ||| c == '\u{85}'
    ||| c == '\u{a0}'
    ||| c == '\u{1680}'
    ||| '\u{2000}' <= c <= '\u{200a}'
    ||| c == '\u{2028}'
    ||| c == '\u{2029}'
    ||| c == '\u{202f}'
    ||| c == '\u{205f}'
    ||| c == '\u{3000}'
}

/// `text` without the white space at its two ends.
pub open spec fn trimmed(text: Seq<char>) -> Seq<char>
    decreases text.len(),
{
    if text.len() == 0 {
        text
    } else if is_white_space(text[0]) {
        trimmed(text.drop_first())
    } else if is_white_space(text.last()) {
        trimmed(text.drop_last())
    } else {
        text
    }
}

/// The order of strings as a relation.
pub open spec fn text_order() -> spec_fn(Seq<char>, Seq<char>) -> bool {
    |a: Seq<char>, b: Seq<char>| text_le(a, b)
}

/// Any two strings are in order one way or the other, and both ways only if they are equal.
proof fn lemma_text_le_total(a: Seq<char>, b: Seq<char>)
    ensures
        text_le(a, b) || text_le(b, a),
        text_le(a, b) && text_le(b, a) ==> a == b,
    decreases a.len(),
{
    if a.len() > 0 && b.len() > 0 && a[0] == b[0] {
        lemma_text_le_total(a.drop_first(), b.drop_first());
        if a.drop_first() == b.drop_first() {
            assert(a == seq![a[0]] + a.drop_first());
            assert(b == seq![b[0]] + b.drop_first());
        }
    }
}

/// Strings in order stay in order across a third.
proof fn lemma_text_le_transitive(a: Seq<char>, b: Seq<char>, c: Seq<char>)
    requires
        text_le(a, b),
        text_le(b, c),
    ensures
        text_le(a, c),
    decreases a.len(),
{
    if a.len() > 0 && b.len() > 0 && c.len() > 0 && a[0] == b[0] && b[0] == c[0] {
        lemma_text_le_transitive(a.drop_first(), b.drop_first(), c.drop_first());
    }
}

/// The order of strings is total.
pub proof fn lemma_text_order()
    ensures
        total_ordering(text_order()),
{
    let leq = text_order();
    assert forall|a: Seq<char>| #[trigger] leq(a, a) by {
        lemma_text_le_total(a, a);
    }
    assert forall|a: Seq<char>, b: Seq<char>| #[trigger] leq(a, b) && #[trigger] leq(b, a) implies a
        == b by {
        lemma_text_le_total(a, b);
    }
    assert forall|a: Seq<char>, b: Seq<char>, c: Seq<char>| #[trigger]
        leq(a, b) && #[trigger] leq(b, c) implies leq(a, c) by {
        lemma_text_le_transitive(a, b, c);
    }
    assert forall|a: Seq<char>, b: Seq<char>| #[trigger] leq(a, b) || #[trigger] leq(b, a) by {
        lemma_text_le_total(a, b);
    }
}

/// A number in hexadecimal is as many of the digits as its width says.
pub proof fn lemma_hex(n: nat, width: nat)
    ensures
        hex(n, width).len() == width,
        forall|i: int| 0 <= i < width ==> "0123456789abcdef"@.contains(#[trigger] hex(n, width)[i]),
    decreases width,
{
    reveal_strlit("0123456789abcdef");
    if width > 0 {
        lemma_hex(n / 16, (width - 1) as nat);
        let digits = "0123456789abcdef"@;
        assert(digits.contains(digits[(n % 16) as int]));
    }
}

/// The digits from 0 to 9 differ.
proof fn lemma_digit(a: int, b: int)
    requires
        0 <= a < 10,
        0 <= b < 10,
        digit(a) == digit(b),
    ensures
        a == b,
{
    reveal_strlit("0123456789abcdef");
}

/// Two numbers that are written alike in decimal are equal.
pub proof fn lemma_decimal(a: nat, b: nat)
    requires
        decimal(a) == decimal(b),
    ensures
        a == b,
    decreases a,
{
    assert(a >= 10 ==> decimal(a).len() > decimal(a / 10).len());
    assert(b >= 10 ==> decimal(b).len() > decimal(b / 10).len());
    lemma_decimal_len(a / 10);
    lemma_decimal_len(b / 10);
    if a < 10 {
        assert(decimal(a)[0] == digit(a as int));
        if b < 10 {
            assert(decimal(b)[0] == digit(b as int));
            lemma_digit(a as int, b as int);
        }
    } else if b >= 10 {
        assert(decimal(a).last() == digit((a % 10) as int));
        assert(decimal(b).last() == digit((b % 10) as int));
        lemma_digit((a % 10) as int, (b % 10) as int);
        assert(decimal(a).drop_last() =~= decimal(a / 10));
        assert(decimal(b).drop_last() =~= decimal(b / 10));
        lemma_decimal(a / 10, b / 10);
    }
}

/// A number in decimal has a digit.
proof fn lemma_decimal_len(n: nat)
    ensures
        decimal(n).len() > 0,
{
}

/// What a sequence of strings holds.
pub open spec fn strings(texts: Seq<String>) -> Seq<Seq<char>> {
    texts.map_values(|t: String| t@)
}

/// `prefix`, the text and `suffix`; nothing where there is no text.
pub open spec fn labelled(prefix: Seq<char>, text: Option<Seq<char>>, suffix: Seq<char>) -> Seq<char> {
    match text {
        Some(t) => prefix + t + suffix,
        None => Seq::empty(),
    }
}

/// A text that is there and not empty.
pub open spec fn nonempty(text: Option<Seq<char>>) -> Option<Seq<char>> {
    match text {
        Some(t) => if t.len() > 0 {
            Some(t)
        } else {
            None
        },
        None => None,
    }
}

/// What a borrowed optional string holds.
pub open spec fn optional_str(text: Option<&str>) -> Option<Seq<char>> {
    match text {
        Some(t) => Some(t@),
        None => None,
    }
}

/// What an optional string holds, by its characters.
pub open spec fn optional(text: Option<String>) -> Option<Seq<char>> {
    match text {
        Some(t) => Some(t@),
        None => None,
    }
}

/// The characters of `text`.
fn chars_of(text: &str) -> (r: Vec<char>)
    ensures
        r@ == text@,
{
    let mut out: Vec<char> = Vec::new();
    for c in it: text.chars()
        invariant
            it.seq() == text@,
            out@ == text@.take(it.index() as int),
    {
        out.push(c);
    }
    out
}

/// The string of one digit.
fn digit_text(value: u64) -> (r: &'static str)
    requires
        value < 16,
    ensures
        r@ == seq![digit(value as int)],
{
    proof {
        reveal_strlit("0123456789abcdef");
        reveal_strlit("0");
        reveal_strlit("1");
        reveal_strlit("2");
        reveal_strlit("3");
        reveal_strlit("4");
        reveal_strlit("5");
        reveal_strlit("6");
        reveal_strlit("7");
        reveal_strlit("8");
        reveal_strlit("9");
        reveal_strlit("a");
        reveal_strlit("b");
        reveal_strlit("c");
        reveal_strlit("d");
        reveal_strlit("e");
        reveal_strlit("f");
    }
    match value {
        0 => "0",
        1 => "1",
        2 => "2",
        3 => "3",
        4 => "4",
        5 => "5",
        6 => "6",
        7 => "7",
        8 => "8",
        9 => "9",
        10 => "a",
        11 => "b",
        12 => "c",
        13 => "d",
        14 => "e",
        _ => "f",
    }
}

/// Appends `n` in decimal.
pub fn push_decimal(out: &mut String, n: u64)
    ensures
        final(out)@ == old(out)@ + decimal(n as nat),
    decreases n,
{
    if n >= 10 {
        push_decimal(out, n / 10);
    }
    out.append(digit_text(n % 10));
}

/// Appends the last `width` hexadecimal digits of `n`.
pub fn push_hex(out: &mut String, n: u64, width: usize)
    ensures
        final(out)@ == old(out)@ + hex(n as nat, width as nat),
    decreases width,
{
    if width > 0 {
        push_hex(out, n / 16, width - 1);
        out.append(digit_text(n % 16));
    }
}

/// Appends `ms` milliseconds in seconds.
pub fn push_seconds(out: &mut String, ms: u64)
    ensures
        final(out)@ == old(out)@ + seconds(ms as nat),
{
    push_decimal(out, ms / 1000);
    let rest: u64 = ms % 1000;
    if rest != 0 {
        out.append(".");
        out.append(digit_text(rest / 100));
        if rest % 100 != 0 {
            out.append(digit_text(rest / 10 % 10));
            if rest % 10 != 0 {
                out.append(digit_text(rest % 10));
            }
        }
    }
}

/// Appends `prefix`, the text and `suffix`; nothing where there is no text.
pub fn push_labelled(out: &mut String, prefix: &str, text: Option<&str>, suffix: &str)
    ensures
        final(out)@ == old(out)@ + labelled(prefix@, optional_str(text), suffix@),
{
    if let Some(t) = text {
        out.append(prefix);
        out.append(t);
        out.append(suffix);
    }
}

/// The text, if it is there and not empty.
pub fn if_nonempty(text: Option<&str>) -> (r: Option<&str>)
    ensures
        optional_str(r) == nonempty(optional_str(text)),
{
    match text {
        Some(t) => if t.is_empty() {
            None
        } else {
            Some(t)
        },
        None => None,
    }
}

/// A borrow of an optional string.
pub fn borrowed(text: &Option<String>) -> (r: Option<&str>)
    ensures
        optional_str(r) == optional(*text),
{
    match text {
        Some(t) => Some(t.as_str()),
        None => None,
    }
}

/// An owned copy of an optional string.
pub fn owned(text: Option<&str>) -> (r: Option<String>)
    ensures
        optional(r) == optional_str(text),
{
    match text {
        Some(t) => Some(t.to_owned()),
        None => None,
    }
}

/// Whether two strings are equal.
pub fn same_text(a: &str, b: &str) -> (r: bool)
    ensures
        r == (a@ == b@),
{
    a.to_owned() == b.to_owned()
}

/// Whether `text` ends with `suffix`.
pub fn ends_with(text: &str, suffix: &str) -> (r: bool)
    ensures
        r == suffix@.is_suffix_of(text@),
{
    let t: Vec<char> = chars_of(text);
    let s: Vec<char> = chars_of(suffix);
    if s.len() > t.len() {
        return false;
    }
    matches_at(&t, &s, t.len() - s.len())
}

/// Whether `needle` stands in `text` at `at`.
fn matches_at(text: &Vec<char>, needle: &Vec<char>, at: usize) -> (r: bool)
    requires
        at + needle@.len() <= text@.len(),
    ensures
        r == occurs_at(text@, needle@, at as int),
{
    let len: usize = text.len();
    let mut i: usize = 0;
    while i < needle.len()
        invariant
            i <= needle@.len(),
            at + needle@.len() <= text@.len() == len,
            forall|j: int| 0 <= j < i ==> text@[at + j] == needle@[j],
        decreases needle@.len() - i,
    {
        if text[at + i] != needle[i] {
            assert(text@.subrange(at as int, at + needle@.len())[i as int] != needle@[i as int]);
            return false;
        }
        i += 1;
    }
    assert(text@.subrange(at as int, at + needle@.len()) == needle@);
    true
}

/// Whether `needle` occurs in `text`.
pub fn contains_text(text: &str, needle: &str) -> (r: bool)
    ensures
        r == contains(text@, needle@),
{
    let t: Vec<char> = chars_of(text);
    let n: Vec<char> = chars_of(needle);
    if n.len() > t.len() {
        return false;
    }
    let mut at: usize = 0;
    while at <= t.len() - n.len()
        invariant
            t@ == text@,
            n@ == needle@,
            n@.len() <= t@.len(),
            at <= t@.len() - n@.len() + 1,
            forall|j: int| 0 <= j < at ==> !occurs_at(t@, n@, j),
        decreases t@.len() - n@.len() + 1 - at,
    {
        if matches_at(&t, &n, at) {
            return true;
        }
        if at == t.len() - n.len() {
            return false;
        }
        at += 1;
    }
    false
}

/// Whether `a` stands before `b` in the order of strings, or is equal to it.
pub fn not_after(a: &str, b: &str) -> (r: bool)
    ensures
        r == text_le(a@, b@),
{
    let x: Vec<char> = chars_of(a);
    let y: Vec<char> = chars_of(b);
    let mut i: usize = 0;
    assert(x@.skip(0) == x@ && y@.skip(0) == y@);
    while i < x.len() && i < y.len() && x[i] == y[i]
        invariant
            i <= x@.len(),
            i <= y@.len(),
            text_le(x@, y@) == text_le(x@.skip(i as int), y@.skip(i as int)),
        decreases x@.len() - i,
    {
        assert(x@.skip(i as int).drop_first() == x@.skip(i + 1));
        assert(y@.skip(i as int).drop_first() == y@.skip(i + 1));
        i += 1;
    }
    if i == x.len() {
        true
    } else if i == y.len() {
        false
    } else {
        x[i] < y[i]
    }
}

/// Whether `c` is white space.
fn white_space(c: char) -> (r: bool)
    ensures
        r == is_white_space(c),
{
    ('\u{9}' <= c && c <= '\u{d}') || c == ' ' || c == '\u{85}' || c == '\u{a0}' || c == '\u{1680}'
        || ('\u{2000}' <= c && c <= '\u{200a}') || c == '\u{2028}' || c == '\u{2029}' || c
        == '\u{202f}' || c == '\u{205f}' || c == '\u{3000}'
}

/// `text` without the white space at its two ends.
pub fn trim(text: &str) -> (r: String)
    ensures
        r@ == trimmed(text@),
{
    let t: Vec<char> = chars_of(text);
    let mut from: usize = 0;
    let mut to: usize = t.len();
    assert(t@.subrange(0, t@.len() as int) == t@);
    while from < to && white_space(t[from])
        invariant
            from <= to == t@.len(),
            trimmed(t@) == trimmed(t@.subrange(from as int, to as int)),
        decreases to - from,
    {
        assert(t@.subrange(from as int, to as int).drop_first() == t@.subrange(from + 1, to as int));
        from += 1;
    }
    while from < to && white_space(t[to - 1])
        invariant
            from <= to <= t@.len(),
            from < to ==> !is_white_space(t@[from as int]),
            trimmed(t@) == trimmed(t@.subrange(from as int, to as int)),
        decreases to - from,
    {
        assert(t@.subrange(from as int, to as int).drop_last() == t@.subrange(from as int, to - 1));
        to -= 1;
    }
    text.substring_char(from, to).to_owned()
}

/// A digit is the character of its value: `0` to `9`, then `a` to `f`.
proof fn lemma_digit_char(value: int)
    requires
        0 <= value < 16,
    ensures
        digit(value) as int == if value < 10 {
            48 + value
        } else {
            87 + value
        },
{
    reveal_strlit("0123456789abcdef");
    assert(value == 0 || value == 1 || value == 2 || value == 3 || value == 4 || value == 5 || value
        == 6 || value == 7 || value == 8 || value == 9 || value == 10 || value == 11 || value == 12
        || value == 13 || value == 14 || value == 15);
}

/// A number below ten is written as one character, `0` (48) for 0 and so on; one more digit behind
/// a number that is not 0 makes it ten times as large, and adds the digit.
pub proof fn law_decimal(n: nat, d: nat)
    requires
        d < 10,
    ensures
        decimal(d).len() == 1,
        decimal(d)[0] as int == 48 + d,
        n > 0 ==> decimal(10 * n + d) == decimal(n) + decimal(d),
{
    lemma_digit_char(d as int);
    if n > 0 {
        assert((10 * n + d) / 10 == n);
        assert((10 * n + d) % 10 == d);
        assert(decimal(10 * n + d) =~= decimal(n) + decimal(d));
    }
}

/// One more hexadecimal digit behind a number makes it sixteen times as large, and adds the digit:
/// `0` (48) to `9`, then `a` (97) to `f`.
pub proof fn law_hex(n: nat, d: nat, width: nat)
    requires
        d < 16,
    ensures
        hex(n, 0).len() == 0,
        hex(16 * n + d, width + 1).drop_last() == hex(n, width),
        hex(16 * n + d, width + 1).last() as int == if d < 10 {
            48 + d
        } else {
            87 + d
        },
{
    lemma_digit_char(d as int);
    assert((16 * n + d) / 16 == n as int);
    assert((16 * n + d) % 16 == d as int);
    assert(hex(16 * n + d, width + 1).drop_last() =~= hex(n, width));
}

/// Whole seconds are written as a number; else a point follows, and the tenths, hundredths and
/// thousandths, up to the last that is not 0.
pub proof fn law_seconds(s: nat, a: nat, b: nat, c: nat)
    requires
        a < 10,
        b < 10,
        c < 10,
    ensures
        seconds(1000 * s) == decimal(s),
        a > 0 ==> seconds(1000 * s + 100 * a) == decimal(s) + "."@ + decimal(a),
        b > 0 ==> seconds(1000 * s + 100 * a + 10 * b) == decimal(s) + "."@ + decimal(a) + decimal(b),
        c > 0 ==> seconds(1000 * s + 100 * a + 10 * b + c) == decimal(s) + "."@ + decimal(a)
            + decimal(b) + decimal(c),
{
    assert((1000 * s) % 1000 == 0 && (1000 * s) / 1000 == s as int);
    if a > 0 {
        lemma_fraction(a, 0, 0);
        lemma_seconds(s, 100 * a);
    }
    if b > 0 {
        lemma_fraction(a, b, 0);
        lemma_seconds(s, 100 * a + 10 * b);
        assert(decimal(s) + "."@ + (decimal(a) + decimal(b)) =~= decimal(s) + "."@ + decimal(a)
            + decimal(b));
    }
    if c > 0 {
        lemma_fraction(a, b, c);
        lemma_seconds(s, 100 * a + 10 * b + c);
        assert(decimal(s) + "."@ + (decimal(a) + decimal(b) + decimal(c)) =~= decimal(s) + "."@
            + decimal(a) + decimal(b) + decimal(c));
    }
}

/// Seconds that are not whole are written with a point.
proof fn lemma_seconds(s: nat, thousandths: nat)
    requires
        0 < thousandths < 1000,
    ensures
        seconds(1000 * s + thousandths) == decimal(s) + "."@ + fraction(thousandths),
{
    assert((1000 * s + thousandths) % 1000 == thousandths as int);
    assert((1000 * s + thousandths) / 1000 == s as int);
}

/// The digits behind the point.
proof fn lemma_fraction(a: nat, b: nat, c: nat)
    requires
        a < 10,
        b < 10,
        c < 10,
    ensures
        b == 0 && c == 0 ==> fraction(100 * a + 10 * b + c) == decimal(a),
        b > 0 && c == 0 ==> fraction(100 * a + 10 * b + c) == decimal(a) + decimal(b),
        c > 0 ==> fraction(100 * a + 10 * b + c) == decimal(a) + decimal(b) + decimal(c),
{
    let n = 100 * a + 10 * b + c;
    assert(n / 100 == a as int && n % 100 == 10 * b + c);
    assert(n / 10 == 10 * a + b && n % 10 == c as int);
    assert((10 * a + b) % 10 == b as int);
    if c > 0 {
        assert(fraction(n) =~= decimal(a) + decimal(b) + decimal(c));
    } else if b > 0 {
        assert(fraction(n) =~= decimal(a) + decimal(b));
    } else {
        assert(fraction(n) =~= decimal(a));
    }
}

/// A text occurs between any two others.
pub proof fn law_contains(a: Seq<char>, needle: Seq<char>, b: Seq<char>)
    ensures
        contains(a + needle + b, needle),
{
    let text = a + needle + b;
    assert(text.subrange(a.len() as int, (a.len() + needle.len()) as int) =~= needle);
    assert(occurs_at(text, needle, a.len() as int));
}

/// A text in which another occurs is what stands before it, it, and what stands behind it.
pub proof fn law_contained(text: Seq<char>, needle: Seq<char>)
    requires
        contains(text, needle),
    ensures
        exists|a: Seq<char>, b: Seq<char>| text == #[trigger] (a + needle + b),
{
    let at = choose|at: int| occurs_at(text, needle, at);
    let a = text.subrange(0, at);
    let b = text.subrange(at + needle.len(), text.len() as int);
    assert(text.subrange(at, at + needle.len()) == needle);
    assert(text =~= a + needle + b);
}

/// What occurs in a part of a text occurs in the text.
pub proof fn lemma_contains_part(a: Seq<char>, part: Seq<char>, b: Seq<char>, needle: Seq<char>)
    requires
        contains(part, needle),
    ensures
        contains(a + part + b, needle),
{
    law_contained(part, needle);
    let (x, y) = choose|x: Seq<char>, y: Seq<char>| part == #[trigger] (x + needle + y);
    assert(a + part + b =~= (a + x) + needle + (y + b));
    law_contains(a + x, needle, y + b);
}

/// Strings are ordered by the first character in which they differ, and a string stands before
/// those that it begins.
pub proof fn law_text_order(
    start: Seq<char>,
    c: char,
    d: char,
    x: Seq<char>,
    y: Seq<char>,
)
    requires
        c != d,
    ensures
        text_le(start + seq![c] + x, start + seq![d] + y) <==> c < d,
        text_le(start, start + x),
        !text_le(start + seq![c] + x, start),
    decreases start.len(),
{
    let a = start + seq![c] + x;
    let b = start + seq![d] + y;
    if start.len() == 0 {
        assert(a[0] == c && b[0] == d);
    } else {
        let rest = start.drop_first();
        law_text_order(rest, c, d, x, y);
        assert(a.drop_first() =~= rest + seq![c] + x);
        assert(b.drop_first() =~= rest + seq![d] + y);
        assert((start + x).drop_first() =~= rest + x);
        assert(a[0] == start[0] && b[0] == start[0]);
        assert((start + x)[0] == start[0]);
    }
}

/// White space around a text is trimmed, and nothing else: the text itself does not begin or end
/// with white space.
pub proof fn law_trimmed(a: Seq<char>, text: Seq<char>, b: Seq<char>)
    requires
        forall|i: int| 0 <= i < a.len() ==> is_white_space(#[trigger] a[i]),
        forall|i: int| 0 <= i < b.len() ==> is_white_space(#[trigger] b[i]),
        text.len() > 0 ==> !is_white_space(text[0]) && !is_white_space(text.last()),
    ensures
        trimmed(a + text + b) == text,
    decreases a.len() + b.len(),
{
    let all = a + text + b;
    if a.len() > 0 {
        assert(all[0] == a[0]);
        assert(all.drop_first() =~= a.drop_first() + text + b);
        assert forall|i: int| 0 <= i < a.drop_first().len() implies is_white_space(
            #[trigger] a.drop_first()[i],
        ) by {
            assert(a.drop_first()[i] == a[i + 1]);
        }
        law_trimmed(a.drop_first(), text, b);
    } else if b.len() > 0 {
        if text.len() > 0 {
            assert(all[0] == text[0]);
            assert(all.last() == b[b.len() - 1]);
            assert(all.drop_last() =~= a + text + b.drop_last());
            assert forall|i: int| 0 <= i < b.drop_last().len() implies is_white_space(
                #[trigger] b.drop_last()[i],
            ) by {
                assert(b.drop_last()[i] == b[i]);
            }
            law_trimmed(a, text, b.drop_last());
        } else {
            assert(all[0] == b[0]);
            assert(all.drop_first() =~= a + text + b.drop_first());
            assert forall|i: int| 0 <= i < b.drop_first().len() implies is_white_space(
                #[trigger] b.drop_first()[i],
            ) by {
                assert(b.drop_first()[i] == b[i + 1]);
            }
            law_trimmed(a, text, b.drop_first());
        }
    } else {
        assert(all =~= text);
        if text.len() > 0 {
            assert(text[text.len() - 1] == text.last());
        }
    }
}

/// The white space: tab to carriage return, space, next line, no-break space, Ogham space mark, en
/// quad to hair space, line and paragraph separators, and the narrow no-break, medium mathematical
/// and ideographic spaces.
pub proof fn law_white_space(c: char)
    ensures
        is_white_space(c) <==> 9 <= c as int <= 13 || c as int == 32 || c as int == 133 || c as int
            == 160 || c as int == 5760 || 8192 <= c as int <= 8202 || c as int == 8232 || c as int
            == 8233 || c as int == 8239 || c as int == 8287 || c as int == 12288,
{
}

/// A string that is there is held by its characters.
pub proof fn law_strings(text: String, slice: &str, texts: Seq<String>, i: int)
    requires
        0 <= i < texts.len(),
    ensures
        optional(Some(text)) == Some(text@),
        optional(None) is None,
        optional_str(Some(slice)) == Some(slice@),
        optional_str(None) is None,
        strings(texts).len() == texts.len(),
        strings(texts)[i] == texts[i]@,
{
}

/// What a number of hexadecimal digits can count to.
pub open spec fn sixteen_to(width: nat) -> nat
    decreases width,
{
    if width == 0 {
        1
    } else {
        16 * sixteen_to((width - 1) as nat)
    }
}

/// Two numbers that fit a width and are written alike in hexadecimal are equal.
pub proof fn law_hex_differs(a: nat, b: nat, width: nat)
    requires
        a < sixteen_to(width),
        b < sixteen_to(width),
        hex(a, width) == hex(b, width),
    ensures
        a == b,
    decreases width,
{
    if width > 0 {
        let fewer = (width - 1) as nat;
        assert(hex(a, width).drop_last() =~= hex(a / 16, fewer));
        assert(hex(b, width).drop_last() =~= hex(b / 16, fewer));
        assert(hex(a, width).last() == digit((a % 16) as int));
        assert(hex(b, width).last() == digit((b % 16) as int));
        lemma_digit_char((a % 16) as int);
        lemma_digit_char((b % 16) as int);
        law_hex_differs(a / 16, b / 16, fewer);
    }
}

} // verus!
