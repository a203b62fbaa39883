//! Text helpers: comparison, substring search, and decimal numbers.
use vstd::prelude::*;

verus! {

/// Whether two texts hold the same characters.
pub fn same_text(a: &str, b: &str) -> (same: bool)
    ensures
        same == (a@ == b@),
{
    let left: String = a.to_owned();
    let right: String = b.to_owned();
    left == right
}

/// The views of a list of texts.
pub open spec fn texts(list: Seq<String>) -> Seq<Seq<char>> {
    list.map_values(|s: String| s@)
}

/// The view of a text that may be absent.
pub open spec fn text_of(s: Option<String>) -> Option<Seq<char>> {
    match s {
        Some(t) => Some(t@),
        None => None,
    }
}

/// The view of a borrowed text that may be absent.
pub open spec fn str_of(s: Option<&str>) -> Option<Seq<char>> {
    match s {
        Some(t) => Some(t@),
        None => None,
    }
}

/// `needle` stands somewhere in `hay`.
pub open spec fn holds_text(hay: Seq<char>, needle: Seq<char>) -> bool {
    exists|i: int|
        0 <= i <= hay.len() - needle.len() && #[trigger] hay.subrange(i, i + needle.len())
            == needle
}

fn chars_of(s: &str) -> (list: Vec<char>)
    ensures
        list@ == s@,
{
    let n: usize = s.unicode_len();
    let mut list: Vec<char> = Vec::new();
    let mut i: usize = 0;
    while i < n
        invariant
            n == s@.len(),
            i <= n,
            list@ == s@.subrange(0, i as int),
        decreases n - i,
    {
        list.push(s.get_char(i));
        i = i + 1;
        assert(s@.subrange(0, i as int) =~= s@.subrange(0, i - 1).push(s@[i - 1]));
    }
    assert(s@.subrange(0, n as int) =~= s@);
    list
}

/// Whether `needle` stands somewhere in `hay`.
pub fn contains_text(hay: &str, needle: &str) -> (found: bool)
    ensures
        found == holds_text(hay@, needle@),
{
    let h: Vec<char> = chars_of(hay);
    let n: Vec<char> = chars_of(needle);
    if n.len() > h.len() {
        return false;
    }
    let last: usize = h.len() - n.len();
    let mut i: usize = 0;
    while i <= last
        invariant
            h@ == hay@,
            n@ == needle@,
            last == h.len() - n.len(),
            i <= last + 1,
            forall|j: int|
                0 <= j < i ==> #[trigger] hay@.subrange(j, j + needle@.len()) != needle@,
        decreases last + 1 - i,
    {
        let mut k: usize = 0;
        while k < n.len() && h[i + k] == n[k]
            invariant
                h@ == hay@,
                n@ == needle@,
                last == h.len() - n.len(),
                i <= last,
                k <= n.len(),
                forall|j: int| 0 <= j < k ==> hay@[i + j] == needle@[j],
            decreases n.len() - k,
        {
            k = k + 1;
        }
        let ghost window = hay@.subrange(i as int, i + needle@.len());
        if k == n.len() {
            assert(window =~= needle@);
            return true;
        }
        assert(window[k as int] != needle@[k as int]);
        i = i + 1;
    }
    false
}

/// The character of a decimal digit.
pub open spec fn digit_char(d: int) -> char {
    if d == 0 {
        '0'
    } else if d == 1 {
        '1'
    } else if d == 2 {
        '2'
    } else if d == 3 {
        '3'
    } else if d == 4 {
        '4'
    } else if d == 5 {
        '5'
    } else if d == 6 {
        '6'
    } else if d == 7 {
        '7'
    } else if d == 8 {
        '8'
    } else {
        '9'
    }
}

/// A decimal digit as text.
pub fn digit_text(d: u8) -> (t: &'static str)
    requires
        d <= 9,
    ensures
        t@ == seq![digit_char(d as int)],
{
    proof {
        reveal_strlit("0");
        reveal_strlit("1");
        reveal_strlit("2");
        reveal_strlit("3");
        reveal_strlit("4");
        reveal_strlit("5");
        reveal_strlit("6");
        reveal_strlit("7");
        reveal_strlit("8");
        reveal_strlit("9");
    }
    match d {
        0 => "0",
        1 => "1",
        2 => "2",
        3 => "3",
        4 => "4",
        5 => "5",
        6 => "6",
        7 => "7",
        8 => "8",
        _ => "9",
    }
}

/// A natural number in decimal, without leading zeros.
pub open spec fn nat_text(n: nat) -> Seq<char>
    decreases n,
{
    if n < 10 {
        seq![digit_char(n as int)]
    } else {
        nat_text(n / 10).push(digit_char((n % 10) as int))
    }
}

/// An integer in decimal, with a minus sign where it is negative.
pub open spec fn int_text(i: int) -> Seq<char> {
    if i < 0 {
        seq!['-'] + nat_text((-i) as nat)
    } else {
        nat_text(i as nat)
    }
}

fn append_nat(s: &mut String, n: u128)
    ensures
        final(s)@ == old(s)@ + nat_text(n as nat),
    decreases n,
{
    if n >= 10 {
        append_nat(s, n / 10);
    }
    s.append(digit_text((n % 10) as u8));
    assert(s@ =~= old(s)@ + nat_text(n as nat));
}

/// Append an integer in decimal.
pub fn append_int(s: &mut String, i: i128)
    ensures
        final(s)@ == old(s)@ + int_text(i as int),
{
    if i < 0 {
        proof {
            reveal_strlit("-");
        }
        s.append("-");
        append_nat(s, (-(i + 1)) as u128 + 1);
        assert(s@ =~= old(s)@ + int_text(i as int));
    } else {
        append_nat(s, i as u128);
    }
}

/// The value of a decimal digit.
pub open spec fn digit_value(c: char) -> int {
    c as int - '0' as int
}

/// A character is a decimal digit.
pub open spec fn is_digit(c: char) -> bool {
    '0' <= c <= '9'
}

/// One digit or more, and nothing else.
pub open spec fn is_digits(s: Seq<char>) -> bool {
    s.len() > 0 && forall|i: int| 0 <= i < s.len() ==> is_digit(#[trigger] s[i])
}

/// The number that digits write.
pub open spec fn digits_value(s: Seq<char>) -> int
    decreases s.len(),
{
    if s.len() == 0 {
        0
    } else {
        10 * digits_value(s.drop_last()) + digit_value(s.last())
    }
}

/// The number that a text writes as an optional sign and digits, where it
/// writes one that an `i64` can hold.
pub open spec fn i64_of_text(s: Seq<char>) -> Option<i64> {
    let signed = s.len() > 0 && (s[0] == '-' || s[0] == '+');
    let digits = if signed {
        s.skip(1)
    } else {
        s
    };
    let value = if signed && s[0] == '-' {
        -digits_value(digits)
    } else {
        digits_value(digits)
    };
    if is_digits(digits) && i64::MIN <= value <= i64::MAX {
        Some(value as i64)
    } else {
        None
    }
}

/// Read an `i64` from an optional sign and decimal digits.
pub fn parse_i64(s: &str) -> (value: Option<i64>)
    ensures
        value == i64_of_text(s@),
{
    let c: Vec<char> = chars_of(s);
    let signed: bool = c.len() > 0 && (c[0] == '-' || c[0] == '+');
    let negative: bool = signed && c[0] == '-';
    let start: usize = if signed { 1 } else { 0 };
    let ghost digits = if signed {
        s@.skip(1)
    } else {
        s@
    };
    if c.len() == start {
        return None;
    }
    let mut i: usize = start;
    let mut sum: u128 = 0;
    let mut over: bool = false;
    while i < c.len()
        invariant
            c@ == s@,
            start <= i <= c.len(),
            start == (if signed { 1usize } else { 0 }),
            digits == (if signed { s@.skip(1) } else { s@ }),
            digits.len() == c.len() - start,
            signed == (s@.len() > 0 && (s@[0] == '-' || s@[0] == '+')),
            forall|j: int| 0 <= j < i - start ==> is_digit(#[trigger] digits[j]),
            !over ==> sum == digits_value(digits.take(i - start)) && sum <= 0x8000_0000_0000_0000,
            over ==> digits_value(digits.take(i - start)) > 0x8000_0000_0000_0000,
        decreases c.len() - i,
    {
        let ch: char = c[i];
        assert(digits[i - start] == ch);
        if !(ch >= '0' && ch <= '9') {
            assert(!is_digit(digits[i - start]));
            return None;
        }
        proof {
            let shown = digits.take(i - start + 1);
            assert(shown.drop_last() =~= digits.take(i - start));
            assert(shown.last() == ch);
            assert(digits_value(shown) == 10 * digits_value(digits.take(i - start)) + digit_value(ch));
        }
        if !over {
            sum = 10 * sum + (ch as u32 - '0' as u32) as u128;
            if sum > 0x8000_0000_0000_0000 {
                over = true;
            }
        }
        i = i + 1;
    }
    assert(digits.take(c.len() - start) =~= digits);
    if over {
        return None;
    }
    if negative {
        if sum == 0x8000_0000_0000_0000 {
            Some(i64::MIN)
        } else {
            Some(-(sum as i64))
        }
    } else if sum <= i64::MAX as u128 {
        Some(sum as i64)
    } else {
        None
    }
}

/// A text holds another exactly where it is what comes before, the other, and
/// what comes after.
pub proof fn law_parts_are_found(hay: Seq<char>, needle: Seq<char>, a: Seq<char>, b: Seq<char>)
    ensures
        holds_text(a + needle + b, needle),
        holds_text(hay, needle) ==> exists|x: Seq<char>, y: Seq<char>|
            hay == #[trigger] (x + needle + y),
{
    let whole = a + needle + b;
    let at = a.len() as int;
    assert(whole.subrange(at, at + needle.len()) =~= needle);
    if holds_text(hay, needle) {
        let i = choose|i: int|
            0 <= i <= hay.len() - needle.len() && #[trigger] hay.subrange(i, i + needle.len())
                == needle;
        let x = hay.subrange(0, i);
        let y = hay.subrange(i + needle.len(), hay.len() as int);
        assert(hay =~= x + needle + y) by {
            assert forall|k: int| i <= k < i + needle.len() implies hay[k] == needle[k - i] by {
                assert(hay.subrange(i, i + needle.len())[k - i] == hay[k]);
            }
        }
    }
}

proof fn lemma_digit(d: int)
    requires
        0 <= d <= 9,
    ensures
        digit_char(d) as int == 48 + d,
        is_digit(digit_char(d)),
        digit_value(digit_char(d)) == d,
{
}

/// The decimal digits of a number write that number, without a leading zero.
pub proof fn law_digits_write_the_number(n: nat)
    ensures
        is_digits(nat_text(n)),
        digits_value(nat_text(n)) == n,
        nat_text(n)[0] == '0' <==> n == 0,
        n < 10 ==> nat_text(n).len() == 1 && nat_text(n)[0] as int == 48 + n,
    decreases n,
{
    if n < 10 {
        lemma_digit(n as int);
        let s = nat_text(n);
        assert(s.drop_last() =~= Seq::empty());
        reveal_with_fuel(digits_value, 2);
    } else {
        let m = n / 10;
        law_digits_write_the_number(m);
        lemma_digit((n % 10) as int);
        let s = nat_text(n);
        assert(s.drop_last() =~= nat_text(m));
        assert forall|i: int| 0 <= i < s.len() implies is_digit(#[trigger] s[i]) by {
            if i < s.len() - 1 {
                assert(s[i] == nat_text(m)[i]);
            }
        }
        assert(s[0] == nat_text(m)[0]);
    }
}

/// A number that is written out reads back as itself, where an `i64` holds it,
/// and else as none.
pub proof fn law_numbers_read_back(i: int)
    ensures
        i64::MIN <= i <= i64::MAX ==> i64_of_text(int_text(i)) == Some(i as i64),
        i < i64::MIN || i64::MAX < i ==> i64_of_text(int_text(i)) is None,
{
    let m = if i < 0 {
        (-i) as nat
    } else {
        i as nat
    };
    law_digits_write_the_number(m);
    let s = int_text(i);
    let digits = nat_text(m);
    assert(is_digit(digits[0]));
    if i < 0 {
        assert(s[0] == '-');
        assert(s.skip(1) =~= digits);
    } else {
        assert(s == digits);
    }
}

/// Digits are read from the left: one more digit makes the number ten times as
/// large and adds the digit, until an `i64` no longer holds it. A leading zero
/// or plus changes nothing, and a leading minus negates.
pub proof fn law_digits_are_read_from_the_left(s: Seq<char>, v: i64, d: int)
    requires
        is_digits(s),
        i64_of_text(s) == Some(v),
        0 <= d <= 9,
    ensures
        0 <= v,
        10 * v + d <= i64::MAX ==> i64_of_text(s.push((48 + d) as char)) == Some(
            (10 * v + d) as i64,
        ),
        10 * v + d > i64::MAX ==> i64_of_text(s.push((48 + d) as char)) is None,
        i64_of_text(seq!['0'] + s) == Some(v),
        i64_of_text(seq!['+'] + s) == Some(v),
        i64_of_text(seq!['-'] + s) == Some((-v) as i64),
{
    assert(is_digit(s[0]));
    lemma_digits_not_negative(s);
    let c = (48 + d) as char;
    assert(c as int == 48 + d);
    let longer = s.push(c);
    assert(longer.drop_last() =~= s);
    assert(longer[0] == s[0]);
    assert forall|i: int| 0 <= i < longer.len() implies is_digit(#[trigger] longer[i]) by {
        if i < s.len() {
            assert(is_digit(s[i]));
        }
    }
    lemma_leading_zero(s);
    let padded = seq!['0'] + s;
    assert forall|i: int| 0 <= i < padded.len() implies is_digit(#[trigger] padded[i]) by {
        if i > 0 {
            assert(is_digit(s[i - 1]));
        }
    }
    assert(padded[0] == '0');
    assert((seq!['+'] + s).skip(1) =~= s);
    assert((seq!['-'] + s).skip(1) =~= s);
}

proof fn lemma_digits_not_negative(s: Seq<char>)
    requires
        forall|i: int| 0 <= i < s.len() ==> is_digit(#[trigger] s[i]),
    ensures
        digits_value(s) >= 0,
    decreases s.len(),
{
    if s.len() > 0 {
        assert(is_digit(s[s.len() - 1]));
        assert forall|i: int| 0 <= i < s.drop_last().len() implies is_digit(
            #[trigger] s.drop_last()[i],
        ) by {
            assert(is_digit(s[i]));
        }
        lemma_digits_not_negative(s.drop_last());
    }
}

proof fn lemma_leading_zero(s: Seq<char>)
    ensures
        digits_value(seq!['0'] + s) == digits_value(s),
    decreases s.len(),
{
    let padded = seq!['0'] + s;
    if s.len() == 0 {
        assert(padded.drop_last() =~= Seq::empty());
        assert(padded.last() == '0');
        reveal_with_fuel(digits_value, 2);
    } else {
        lemma_leading_zero(s.drop_last());
        assert(padded.drop_last() =~= seq!['0'] + s.drop_last());
    }
}

/// A text without a digit, or with a character that is neither a digit nor a
/// sign at the front, reads as no number.
pub proof fn law_what_reads_as_no_number(s: Seq<char>, i: int)
    ensures
        s.len() == 0 ==> i64_of_text(s) is None,
        s == seq!['-'] || s == seq!['+'] ==> i64_of_text(s) is None,
        0 <= i < s.len() && !('0' <= s[i] <= '9') && !(i == 0 && (s[0] == '-' || s[0] == '+'))
            ==> i64_of_text(s) is None,
{
    if 0 <= i < s.len() && !('0' <= s[i] <= '9') && !(i == 0 && (s[0] == '-' || s[0] == '+')) {
        if s[0] == '-' || s[0] == '+' {
            assert(!is_digit(s.skip(1)[i - 1]));
        } else {
            assert(!is_digit(s[i]));
        }
    }
}

} // verus!
