//! Reading the operator's menu choice.
use vstd::prelude::*;

verus! {

/// `c` has the Unicode `White_Space` property.
pub open spec fn is_white_space(c: char) -> bool {
    let v = c as u32;
    ||| 0x09 <= v <= 0x0D
    ||| v == 0x20
    ||| v == 0x85
    ||| v == 0xA0
    ||| v == 0x1680
    ||| 0x2000 <= v <= 0x200A
    ||| v == 0x2028
    ||| v == 0x2029
    ||| v == 0x202F
    ||| v == 0x205F
    ||| v == 0x3000
}

/// `s` without its leading white space.
pub open spec fn trim_start(s: Seq<char>) -> Seq<char>
    decreases s.len(),
{
    if s.len() > 0 && is_white_space(s[0]) {
        trim_start(s.drop_first())
    } else {
        s
    }
}

/// `s` without its trailing white space.
pub open spec fn trim_end(s: Seq<char>) -> Seq<char>
    decreases s.len(),
{
    if s.len() > 0 && is_white_space(s.last()) {
        trim_end(s.drop_last())
    } else {
        s
    }
}

/// `s` without leading and trailing white space.
pub open spec fn trimmed(s: Seq<char>) -> Seq<char> {
    trim_end(trim_start(s))
}

/// `c` is one of the decimal digits '0' ..= '9'.
pub open spec fn is_digit(c: char) -> bool {
    0x30 <= (c as u32) <= 0x39
}

/// Every character of `s` is a decimal digit.
pub open spec fn all_digits(s: Seq<char>) -> bool {
    forall|i: int| 0 <= i < s.len() ==> is_digit(#[trigger] s[i])
}

/// The number that the decimal digits `s` write.
pub open spec fn digits_value(s: Seq<char>) -> int
    decreases s.len(),
{
    if s.len() == 0 {
        0
    } else {
        10 * digits_value(s.drop_last()) + ((s.last() as u32) - 0x30)
    }
}

/// Decimal text read as an `i32`: an optional '+' or '-', then at least one digit and
/// nothing else, with a value that fits; otherwise no number.
pub open spec fn parse_i32(s: Seq<char>) -> Option<i32> {
    let negative = s.len() > 0 && s[0] == '-';
    let signed = s.len() > 0 && (s[0] == '-' || s[0] == '+');
    let body = if signed { s.drop_first() } else { s };
    let value = if negative { -digits_value(body) } else { digits_value(body) };
    if body.len() == 0 || !all_digits(body) || value < i32::MIN || value > i32::MAX {
        None
    } else {
        Some(value as i32)
    }
}

/// What the operator's line selects among `count` indexes, numbered from 1.
#[derive(Debug, PartialEq, Eq, Structural, Clone, Copy)]
pub enum MenuChoice {
    /// The index at this position (counted from 0) was chosen.
    Selected(usize),
    /// A number outside 1 ..= count was entered.
    OutOfRange(i32),
    /// The line does not hold a number.
    NotANumber,
}

/// The choice that a line of input makes, as a function of the line.
pub open spec fn menu_choice_of(input: Seq<char>, count: i32) -> MenuChoice {
    match parse_i32(trimmed(input)) {
        Some(n) => if 0 < n && n <= count {
            MenuChoice::Selected((n - 1) as usize)
        } else {
            MenuChoice::OutOfRange(n)
        },
        None => MenuChoice::NotANumber,
    }
}


/// Every character of `s` is white space.
pub open spec fn all_white_space(s: Seq<char>) -> bool {
    forall|i: int| 0 <= i < s.len() ==> is_white_space(#[trigger] s[i])
}

proof fn lemma_trim_start_prefix(a: Seq<char>, x: Seq<char>)
    requires
        all_white_space(a),
    ensures
        trim_start(a + x) == trim_start(x),
    decreases a.len(),
{
    if a.len() > 0 {
        assert((a + x)[0] == a[0]);
        assert((a + x).drop_first() == a.drop_first() + x);
        assert(all_white_space(a.drop_first())) by {
            assert forall|i: int| 0 <= i < a.drop_first().len() implies is_white_space(#[trigger] a.drop_first()[i]) by {
                assert(a.drop_first()[i] == a[i + 1]);
            }
        }
        lemma_trim_start_prefix(a.drop_first(), x);
    } else {
        assert(a + x == x);
    }
}

proof fn lemma_trim_end_suffix(y: Seq<char>, b: Seq<char>)
    requires
        all_white_space(b),
    ensures
        trim_end(y + b) == trim_end(y),
    decreases b.len(),
{
    if b.len() > 0 {
        assert((y + b).last() == b.last());
        assert((y + b).drop_last() == y + b.drop_last());
        assert(all_white_space(b.drop_last())) by {
            assert forall|i: int| 0 <= i < b.drop_last().len() implies is_white_space(#[trigger] b.drop_last()[i]) by {
                assert(b.drop_last()[i] == b[i]);
            }
        }
        lemma_trim_end_suffix(y, b.drop_last());
    } else {
        assert(y + b == y);
    }
}

proof fn lemma_trim_start_suffix(x: Seq<char>, b: Seq<char>)
    requires
        all_white_space(b),
    ensures
        trim_start(x + b) == trim_start(x) + b || (trim_start(x).len() == 0 && trim_start(x + b).len() == 0),
    decreases x.len(),
{
    if x.len() > 0 {
        assert((x + b)[0] == x[0]);
        assert((x + b).drop_first() == x.drop_first() + b);
        if is_white_space(x[0]) {
            lemma_trim_start_suffix(x.drop_first(), b);
        }
    } else {
        assert(x + b == b);
        lemma_trim_start_prefix(b, Seq::<char>::empty());
        assert(b + Seq::<char>::empty() == b);
        assert(trim_start(Seq::<char>::empty()).len() == 0);
    }
}

/// White space before and after the number does not change the choice; in particular the
/// line break that ends a line read from the terminal does not.
pub proof fn lemma_menu_choice_ignores_surrounding_space(a: Seq<char>, x: Seq<char>, b: Seq<char>, count: i32)
    requires
        all_white_space(a),
        all_white_space(b),
    ensures
        menu_choice_of(a + x + b, count) == menu_choice_of(x, count),
{
    lemma_trim_start_prefix(a, x + b);
    assert(a + x + b == a + (x + b));
    lemma_trim_start_suffix(x, b);
    if trim_start(x + b) == trim_start(x) + b {
        lemma_trim_end_suffix(trim_start(x), b);
    } else {
        assert(trim_end(trim_start(x + b)) == trim_start(x + b));
        assert(trim_end(trim_start(x)) == trim_start(x));
        assert(trim_start(x + b) == trim_start(x));
    }
    assert(trimmed(a + x + b) == trimmed(x));
}

/// A selection always names a position on the menu.
pub proof fn lemma_selection_on_menu(input: Seq<char>, count: i32)
    ensures
        menu_choice_of(input, count) matches MenuChoice::Selected(i) ==> i < count,
{
}

proof fn lemma_trim_start_skip(s: Seq<char>, i: int)
    requires
        0 <= i <= s.len(),
        forall|k: int| 0 <= k < i ==> is_white_space(#[trigger] s[k]),
    ensures
        trim_start(s) == trim_start(s.subrange(i, s.len() as int)),
    decreases i,
{
    if i > 0 {
        assert(is_white_space(s[0]));
        let t = s.drop_first();
        assert forall|k: int| 0 <= k < i - 1 implies is_white_space(#[trigger] t[k]) by {
            assert(t[k] == s[k + 1]);
        }
        lemma_trim_start_skip(t, i - 1);
        assert(t.subrange(i - 1, t.len() as int) == s.subrange(i, s.len() as int));
    } else {
        assert(s.subrange(0, s.len() as int) == s);
    }
}

proof fn lemma_trim_end_cut(s: Seq<char>, j: int)
    requires
        0 <= j <= s.len(),
        forall|k: int| j <= k < s.len() ==> is_white_space(#[trigger] s[k]),
    ensures
        trim_end(s) == trim_end(s.subrange(0, j)),
    decreases s.len() - j,
{
    if j < s.len() {
        assert(is_white_space(s.last()));
        let t = s.drop_last();
        assert forall|k: int| j <= k < t.len() implies is_white_space(#[trigger] t[k]) by {
            assert(t[k] == s[k]);
        }
        lemma_trim_end_cut(t, j);
        assert(t.subrange(0, j) == s.subrange(0, j));
    } else {
        assert(s.subrange(0, j) == s);
    }
}

proof fn lemma_digits_value_monotone(s: Seq<char>)
    requires
        all_digits(s),
    ensures
        digits_value(s) >= 0,
    decreases s.len(),
{
    if s.len() > 0 {
        assert(all_digits(s.drop_last())) by {
            assert forall|i: int| 0 <= i < s.drop_last().len() implies is_digit(#[trigger] s.drop_last()[i]) by {
                assert(s.drop_last()[i] == s[i]);
            }
        }
        lemma_digits_value_monotone(s.drop_last());
    }
}

/// The decimal digit character of `d`, for 0 ..= 9.
pub open spec fn digit_char(d: int) -> char {
    if d == 0 { '0' } else if d == 1 { '1' } else if d == 2 { '2' } else if d == 3 { '3' } else if d == 4 {
        '4'
    } else if d == 5 { '5' } else if d == 6 { '6' } else if d == 7 { '7' } else if d == 8 { '8' } else { '9' }
}

/// The usual decimal text of a natural number: its digits, most significant first, with
/// no sign and no leading zero.
pub open spec fn decimal_text(n: nat) -> Seq<char>
    decreases n,
{
    if n < 10 {
        seq![digit_char(n as int)]
    } else {
        decimal_text(n / 10).push(digit_char((n % 10) as int))
    }
}

proof fn lemma_decimal_text(n: nat)
    ensures
        decimal_text(n).len() >= 1,
        forall|i: int| 0 <= i < decimal_text(n).len() ==> 0x30 <= (#[trigger] decimal_text(n)[i] as u32) <= 0x39,
        all_digits(decimal_text(n)),
        digits_value(decimal_text(n)) == n,
    decreases n,
{
    let t = decimal_text(n);
    if n < 10 {
        assert(digit_char(n as int) as u32 == 0x30 + n);
        assert(t.drop_last().len() == 0);
        assert(t.last() == digit_char(n as int));
        assert(digits_value(t.drop_last()) == 0);
        assert(digits_value(t) == 10 * digits_value(t.drop_last()) + ((t.last() as u32) - 0x30));
    } else {
        let p = decimal_text(n / 10);
        lemma_decimal_text(n / 10);
        let d = n % 10;
        assert(digit_char(d as int) as u32 == 0x30 + d);
        assert(t.drop_last() == p);
        assert forall|i: int| 0 <= i < t.len() implies 0x30 <= (#[trigger] t[i] as u32) <= 0x39 by {
            if i < p.len() {
                assert(t[i] == p[i]);
            }
        }
        assert(t.last() == digit_char(d as int));
        assert(digits_value(t) == 10 * digits_value(p) + ((t.last() as u32) - 0x30));
        assert(n == 10 * (n / 10) + n % 10);
    }
    assert forall|i: int| 0 <= i < t.len() implies is_digit(#[trigger] t[i]) by {
        assert(0x30 <= (t[i] as u32) <= 0x39);
    }
}

/// The decimal text of a number that fits in an `i32`, with or without a sign before it,
/// reads as that number (or its negative), as std's `str::parse::<i32>` reads it; every
/// digit '0' ..= '9' counts.
pub proof fn lemma_decimal_text_parses(n: nat)
    requires
        n <= i32::MAX,
    ensures
        parse_i32(decimal_text(n)) == Some(n as i32),
        parse_i32(seq!['+'] + decimal_text(n)) == Some(n as i32),
        parse_i32(seq!['-'] + decimal_text(n)) == Some((-n) as i32),
{
    lemma_decimal_text(n);
    let t = decimal_text(n);
    assert(0x30 <= (t[0] as u32) <= 0x39);
    assert(t[0] != '-' && t[0] != '+');
    let plus = seq!['+'] + t;
    let minus = seq!['-'] + t;
    assert(plus[0] == '+' && plus.drop_first() == t);
    assert(minus[0] == '-' && minus.drop_first() == t);
}

/// The operator who types the number of any index on the menu, as plain decimal text,
/// selects that index (counted from 0).
pub proof fn lemma_menu_number_selects_index(n: nat, count: i32)
    requires
        1 <= n <= count,
    ensures
        menu_choice_of(decimal_text(n), count) == MenuChoice::Selected((n - 1) as usize),
{
    lemma_decimal_text(n);
    lemma_decimal_text_parses(n);
    let t = decimal_text(n);
    assert(!is_white_space(t[0])) by {
        assert(0x30 <= (t[0] as u32) <= 0x39);
    }
    assert(!is_white_space(t.last())) by {
        assert(0x30 <= (t[t.len() - 1] as u32) <= 0x39);
    }
    assert(trim_start(t) == t);
    assert(trim_end(t) == t);
    assert(trimmed(t) == t);
}

/// A number that is not on the menu (zero, or above `count`) is answered as out of range,
/// with the number itself.
pub proof fn lemma_menu_number_out_of_range(n: nat, count: i32)
    requires
        n <= i32::MAX,
        n == 0 || n > count,
    ensures
        menu_choice_of(decimal_text(n), count) == MenuChoice::OutOfRange(n as i32),
{
    lemma_decimal_text(n);
    lemma_decimal_text_parses(n);
    let t = decimal_text(n);
    assert(!is_white_space(t[0])) by {
        assert(0x30 <= (t[0] as u32) <= 0x39);
    }
    assert(!is_white_space(t.last())) by {
        assert(0x30 <= (t[t.len() - 1] as u32) <= 0x39);
    }
    assert(trimmed(t) == t);
}

/// A white-space test on one character.
pub fn is_white_space_char(c: char) -> (res: bool)
    ensures
        res == is_white_space(c),
{
    let v: u32 = c as u32;
    (0x09 <= v && v <= 0x0D) || v == 0x20 || v == 0x85 || v == 0xA0 || v == 0x1680 || (0x2000
        <= v && v <= 0x200A) || v == 0x2028 || v == 0x2029 || v == 0x202F || v == 0x205F || v
        == 0x3000
}

/// The characters of a text, in order.
fn chars_of(s: &str) -> (res: Vec<char>)
    ensures
        res@ == s@,
{
    let mut out: Vec<char> = Vec::new();
    for ch in it: s.chars()
        invariant
            it.seq() == s@,
            out@ == s@.take(it.index() as int),
    {
        out.push(ch);
    }
    assert(s@.take(s@.len() as int) == s@);
    out
}

/// The limit above which the exact value no longer matters for an `i32`.
const OVERFLOW_CAP: i64 = 0x8000_0001;

/// Reads `chars[from..to]` as an `i32` in the way `parse_i32` describes.
fn parse_i32_range(chars: &Vec<char>, from: usize, to: usize) -> (res: Option<i32>)
    requires
        from <= to <= chars@.len(),
    ensures
        res == parse_i32(chars@.subrange(from as int, to as int)),
{
    let ghost s = chars@.subrange(from as int, to as int);
    let mut start: usize = from;
    let mut negative = false;
    if from < to && (chars[from] == '-' || chars[from] == '+') {
        negative = chars[from] == '-';
        start = from + 1;
    }
    let ghost body = chars@.subrange(start as int, to as int);
    assert(s.len() > 0 ==> s[0] == chars@[from as int]);
    assert(negative == (s.len() > 0 && s[0] == '-'));
    assert(body == (if s.len() > 0 && (s[0] == '-' || s[0] == '+') { s.drop_first() } else { s }));
    if start == to {
        return None;
    }
    let mut acc: i64 = 0;
    let mut i: usize = start;
    while i < to
        invariant
            start <= i <= to <= chars@.len(),
            body == chars@.subrange(start as int, to as int),
            s == chars@.subrange(from as int, to as int),
            body == (if s.len() > 0 && (s[0] == '-' || s[0] == '+') { s.drop_first() } else { s }),
            all_digits(chars@.subrange(start as int, i as int)),
            acc == (if digits_value(chars@.subrange(start as int, i as int)) < OVERFLOW_CAP {
                digits_value(chars@.subrange(start as int, i as int))
            } else {
                OVERFLOW_CAP as int
            }),
        decreases to - i,
    {
        let c = chars[i];
        let v: u32 = c as u32;
        let ghost pre = chars@.subrange(start as int, i as int);
        let ghost post = chars@.subrange(start as int, i + 1);
        assert(post.drop_last() == pre);
        assert(post.last() == c);
        if !(0x30 <= v && v <= 0x39) {
            assert(body[i - start] == c);
            assert(!is_digit(body[i - start]));
            assert(!all_digits(body));
            return None;
        }
        assert(all_digits(post)) by {
            assert forall|k: int| 0 <= k < post.len() implies is_digit(#[trigger] post[k]) by {
                if k < pre.len() {
                    assert(post[k] == pre[k]);
                }
            }
        }
        proof {
            lemma_digits_value_monotone(pre);
        }
        let d: i64 = (v - 0x30) as i64;
        if acc >= OVERFLOW_CAP {
            acc = OVERFLOW_CAP;
        } else {
            let next: i64 = acc * 10 + d;
            acc = if next >= OVERFLOW_CAP { OVERFLOW_CAP } else { next };
        }
        i = i + 1;
    }
    assert(chars@.subrange(start as int, i as int) == body);
    proof {
        lemma_digits_value_monotone(body);
    }
    if negative {
        if acc > 0x8000_0000 {
            None
        } else {
            Some((0 - acc) as i32)
        }
    } else {
        if acc > 0x7fff_ffff {
            None
        } else {
            Some(acc as i32)
        }
    }
}

/// Reads the operator's line: the number it holds once surrounding white space is
/// removed, checked against the `count` indexes on the menu.
pub fn menu_choice(input: &str, count: i32) -> (res: MenuChoice)
    ensures
        res == menu_choice_of(input@, count),
{
    let chars = chars_of(input);
    let n = chars.len();
    let mut i: usize = 0;
    while i < n && is_white_space_char(chars[i])
        invariant
            i <= n == chars@.len(),
            forall|k: int| 0 <= k < i ==> is_white_space(#[trigger] chars@[k]),
        decreases n - i,
    {
        i = i + 1;
    }
    proof {
        lemma_trim_start_skip(chars@, i as int);
    }
    let ghost rest = chars@.subrange(i as int, n as int);
    assert(rest.len() == 0 || !is_white_space(rest[0]));
    assert(trim_start(rest) == rest);
    let mut j: usize = n;
    while j > i && is_white_space_char(chars[j - 1])
        invariant
            i <= j <= n == chars@.len(),
            forall|k: int| j <= k < n ==> is_white_space(#[trigger] chars@[k]),
        decreases j,
    {
        j = j - 1;
    }
    proof {
        assert forall|k: int| j - i <= k < rest.len() implies is_white_space(#[trigger] rest[k]) by {
            assert(rest[k] == chars@[i + k]);
        }
        lemma_trim_end_cut(rest, j - i);
        let cut = rest.subrange(0, j - i);
        assert(cut == chars@.subrange(i as int, j as int));
        assert(cut.len() == 0 || !is_white_space(cut.last()));
        assert(trim_end(cut) == cut);
    }
    assert(trimmed(input@) == chars@.subrange(i as int, j as int));
    match parse_i32_range(&chars, i, j) {
        Some(number) => {
            if number > 0 && number <= count {
                MenuChoice::Selected((number - 1) as usize)
            } else {
                MenuChoice::OutOfRange(number)
            }
        },
        None => MenuChoice::NotANumber,
    }
}

} // verus!
