//! Text helpers shared by the other modules, stated over the characters of a string.

use vstd::prelude::*;

verus! {

broadcast use vstd::string::group_string_axioms;

/// `String::push` appends one character.
pub assume_specification[ String::push ](string: &mut String, c: char)
    ensures
        final(string)@ == old(string)@.push(c),
;

/// The characters of `text`, in order.
pub fn characters(text: &str) -> (out: Vec<char>)
    ensures
        out@ == text@,
{
    let mut out: Vec<char> = Vec::new();
    for c in it: text.chars()
        invariant
            it.seq() == text@,
            out@ == text@.take(it.index()),
    {
        out.push(c);
    }
    out
}

/// Whether two texts have the same characters in the same order.
pub fn same_text(a: &str, b: &str) -> (same: bool)
    ensures
        same == (a@ == b@),
{
    let x = characters(a);
    let y = characters(b);
    if x.len() != y.len() {
        return false;
    }
    let mut i: usize = 0;
    while i < x.len()
        invariant
            i <= x.len(),
            x.len() == y.len(),
            x@ == a@,
            y@ == b@,
            forall|j: int| 0 <= j < i ==> #[trigger] x@[j] == y@[j],
        decreases x.len() - i,
    {
        if x[i] != y[i] {
            assert(a@[i as int] != b@[i as int]);
            return false;
        }
        i = i + 1;
    }
    assert(a@ =~= b@);
    true
}

/// The number of a character.
pub fn code_point(c: char) -> (code: u32)
    ensures
        code as int == c as int,
{
    c as u32
}

/// The decimal digit `d` as a character.
pub open spec fn digit_char(d: int) -> char {
    (48 + d) as char
}

pub open spec fn is_digit(c: char) -> bool {
    48 <= c as int <= 57
}

pub open spec fn digit_value(c: char) -> int {
    c as int - 48
}

/// `n` written in decimal without leading zeros.
pub open spec fn decimal(n: nat) -> Seq<char>
    decreases n,
{
    if n < 10 {
        seq![digit_char(n as int)]
    } else {
        decimal(n / 10).push(digit_char((n % 10) as int))
    }
}

fn digit(d: u8) -> (c: char)
    requires
        d < 10,
    ensures
        c == digit_char(d as int),
{
    (48 + d) as char
}

/// Appends `n` in decimal.
pub fn push_decimal(out: &mut String, n: u128)
    ensures
        final(out)@ == old(out)@ + decimal(n as nat),
    decreases n,
{
    if n >= 10 {
        push_decimal(out, n / 10);
    }
    let last: u8 = (n % 10) as u8;
    out.push(digit(last));
    proof {
        assert(out@ =~= old(out)@ + decimal(n as nat));
    }
}

/// The number the digits of `s` spell, most significant first.
pub open spec fn decimal_value(s: Seq<char>) -> int
    decreases s.len(),
{
    if s.len() == 0 {
        0
    } else {
        10 * decimal_value(s.drop_last()) + digit_value(s.last())
    }
}

pub open spec fn all_digits(s: Seq<char>) -> bool {
    forall|i: int| 0 <= i < s.len() ==> is_digit(#[trigger] s[i])
}

/// What follows an optional leading `+`.
pub open spec fn unsigned_digits(s: Seq<char>) -> Seq<char> {
    if s.len() > 0 && s[0] == '+' {
        s.skip(1)
    } else {
        s
    }
}

/// The number `s` spells: an optional `+`, then at least one decimal digit and nothing else, and
/// the value fits in 64 bits.
pub open spec fn parsed_u64(s: Seq<char>) -> Option<u64> {
    let digits = unsigned_digits(s);
    if digits.len() > 0 && all_digits(digits) && decimal_value(digits) <= u64::MAX {
        Some(decimal_value(digits) as u64)
    } else {
        None
    }
}

proof fn lemma_decimal_value_grows(s: Seq<char>, i: int)
    requires
        all_digits(s),
        0 <= i <= s.len(),
    ensures
        0 <= decimal_value(s.take(i)) <= decimal_value(s),
    decreases s.len(),
{
    if s.len() == 0 {
        assert(s.take(i) =~= s);
    } else {
        assert(all_digits(s.drop_last()));
        if i == s.len() {
            assert(s.take(i) =~= s);
            lemma_decimal_value_grows(s.drop_last(), 0);
        } else {
            lemma_decimal_value_grows(s.drop_last(), i);
            assert(s.drop_last().take(i) =~= s.take(i));
        }
    }
}

/// Reads an unsigned 64-bit number.
pub fn parse_u64(text: &str) -> (parsed: Option<u64>)
    ensures
        parsed == parsed_u64(text@),
{
    let chars = characters(text);
    let start: usize = if chars.len() > 0 && chars[0] == '+' {
        1
    } else {
        0
    };
    let ghost digits = unsigned_digits(chars@);
    if start == chars.len() {
        return None;
    }
    let mut value: u64 = 0;
    let mut i: usize = start;
    while i < chars.len()
        invariant
            start <= i <= chars.len(),
            start <= 1,
            chars@ == text@,
            digits == unsigned_digits(text@),
            digits == chars@.skip(start as int),
            digits.len() > 0,
            all_digits(digits.take(i - start)),
            value == decimal_value(digits.take(i - start)),
        decreases chars.len() - i,
    {
        let c = chars[i];
        let code: u32 = code_point(c);
        assert(digits[i - start] == c);
        if code < 48 || code > 57 {
            assert(!is_digit(digits[i - start]));
            return None;
        }
        let ghost next = digits.take(i - start + 1);
        proof {
            assert(next.drop_last() =~= digits.take(i - start));
            assert(next.last() == c);
            assert forall|j: int| 0 <= j < next.len() implies is_digit(#[trigger] next[j]) by {
                assert(next[j] == digits[j]);
                if j < i - start {
                    assert(digits.take(i - start)[j] == digits[j]);
                } else {
                    assert(j == i - start);
                }
            }
            if all_digits(digits) {
                lemma_decimal_value_grows(digits, i - start + 1);
            }
        }
        let d: u64 = (code - 48) as u64;
        if value > (u64::MAX - d) / 10 {
            return None;
        }
        value = value * 10 + d;
        i = i + 1;
    }
    assert(digits.take(i - start) =~= digits);
    Some(value)
}

pub proof fn lemma_decimal_is_digits(n: nat)
    ensures
        decimal(n).len() > 0,
        all_digits(decimal(n)),
        decimal_value(decimal(n)) == n,
    decreases n,
{
    if n < 10 {
        let s = seq![digit_char(n as int)];
        assert(s.drop_last() =~= Seq::<char>::empty());
        assert(decimal_value(s.drop_last()) == 0);
    } else {
        lemma_decimal_is_digits(n / 10);
        let s = decimal(n);
        assert(s.drop_last() =~= decimal(n / 10));
        assert forall|i: int| 0 <= i < s.len() implies is_digit(#[trigger] s[i]) by {
            if i < s.len() - 1 {
                assert(s[i] == decimal(n / 10)[i]);
            }
        }
    }
}

/// A number written in decimal reads back as itself.
pub proof fn law_decimal_round_trip(n: u64)
    ensures
        parsed_u64(decimal(n as nat)) == Some(n),
{
    lemma_decimal_is_digits(n as nat);
    assert(is_digit(decimal(n as nat)[0]));
}

/// Different numbers are written differently.
pub proof fn law_decimal_injective(a: nat, b: nat)
    requires
        decimal(a) == decimal(b),
    ensures
        a == b,
{
    lemma_decimal_is_digits(a);
    lemma_decimal_is_digits(b);
}

/// The lower-case form of an ASCII letter; any other character is its own.
pub open spec fn ascii_lower(c: char) -> char {
    if 65 <= c as int <= 90 {
        (c as int + 32) as char
    } else {
        c
    }
}

/// Same text but for the case of ASCII letters.
pub open spec fn same_ignoring_ascii_case(a: Seq<char>, b: Seq<char>) -> bool {
    &&& a.len() == b.len()
    &&& forall|i: int| 0 <= i < a.len() ==> ascii_lower(#[trigger] a[i]) == ascii_lower(b[i])
}

fn lower(c: char) -> (l: u32)
    ensures
        l == ascii_lower(c) as u32,
{
    let code: u32 = c as u32;
    if 65 <= code && code <= 90 {
        code + 32
    } else {
        code
    }
}

/// Compares two texts, taking the two cases of an ASCII letter as one.
pub fn eq_ignore_ascii_case(a: &str, b: &str) -> (same: bool)
    ensures
        same == same_ignoring_ascii_case(a@, b@),
{
    let x = characters(a);
    let y = characters(b);
    if x.len() != y.len() {
        return false;
    }
    let mut i: usize = 0;
    while i < x.len()
        invariant
            i <= x.len(),
            x.len() == y.len(),
            x@ == a@,
            y@ == b@,
            forall|j: int| 0 <= j < i ==> ascii_lower(#[trigger] x@[j]) == ascii_lower(y@[j]),
        decreases x.len() - i,
    {
        if lower(x[i]) != lower(y[i]) {
            assert(ascii_lower(a@[i as int]) != ascii_lower(b@[i as int]));
            return false;
        }
        i = i + 1;
    }
    true
}

/// `n` written in decimal, with a minus sign when it is negative.
pub open spec fn signed_decimal(n: int) -> Seq<char> {
    if n < 0 {
        seq!['-'] + decimal((-n) as nat)
    } else {
        decimal(n as nat)
    }
}

/// Appends `n` in decimal.
pub fn push_signed_decimal(out: &mut String, n: i64)
    ensures
        final(out)@ == old(out)@ + signed_decimal(n as int),
{
    if n < 0 {
        out.push('-');
        let magnitude: i128 = -(n as i128);
        push_decimal(out, magnitude as u128);
        assert(out@ =~= old(out)@ + signed_decimal(n as int));
    } else {
        push_decimal(out, n as u128);
    }
}

/// Whether `text` begins with `prefix`.
pub fn starts_with(text: &str, prefix: &str) -> (begins: bool)
    ensures
        begins == prefix@.is_prefix_of(text@),
{
    let x = characters(text);
    let y = characters(prefix);
    if y.len() > x.len() {
        return false;
    }
    let mut i: usize = 0;
    while i < y.len()
        invariant
            i <= y.len() <= x.len(),
            x@ == text@,
            y@ == prefix@,
            forall|j: int| 0 <= j < i ==> x@[j] == #[trigger] y@[j],
        decreases y.len() - i,
    {
        if x[i] != y[i] {
            assert(text@.subrange(0, prefix@.len() as int)[i as int] != prefix@[i as int]);
            return false;
        }
        i = i + 1;
    }
    assert(prefix@ =~= text@.subrange(0, prefix@.len() as int));
    true
}

/// The text after `prefix`, or `None` when `text` does not begin with it.
pub fn strip_prefix(text: &str, prefix: &str) -> (rest: Option<String>)
    ensures
        rest is Some <==> prefix@.is_prefix_of(text@),
        rest is Some ==> rest->0@ == text@.skip(prefix@.len() as int),
{
    if !starts_with(text, prefix) {
        return None;
    }
    let x = characters(text);
    let y = characters(prefix);
    let mut rest = String::new();
    let mut i: usize = y.len();
    while i < x.len()
        invariant
            y.len() <= i <= x.len(),
            x@ == text@,
            y@ == prefix@,
            rest@ == x@.subrange(y.len() as int, i as int),
        decreases x.len() - i,
    {
        rest.push(x[i]);
        assert(x@.subrange(y.len() as int, i as int + 1) =~= x@.subrange(
            y.len() as int,
            i as int,
        ).push(x@[i as int]));
        i = i + 1;
    }
    assert(rest@ =~= text@.skip(prefix@.len() as int));
    Some(rest)
}

/// Whether `c` occurs in `text`.
pub fn contains_char(text: &str, c: char) -> (there: bool)
    ensures
        there == text@.contains(c),
{
    let x = characters(text);
    let mut i: usize = 0;
    while i < x.len()
        invariant
            i <= x.len(),
            x@ == text@,
            forall|j: int| 0 <= j < i ==> #[trigger] x@[j] != c,
        decreases x.len() - i,
    {
        if x[i] == c {
            assert(text@[i as int] == c);
            return true;
        }
        i = i + 1;
    }
    false
}

/// Text on both sides of the first `c` is determined by the whole.
pub proof fn lemma_split_at_first(a: Seq<char>, b: Seq<char>, x: Seq<char>, y: Seq<char>, c: char)
    requires
        a + seq![c] + b == x + seq![c] + y,
        !a.contains(c),
        !x.contains(c),
    ensures
        a == x,
        b == y,
{
    let whole = a + seq![c] + b;
    assert(whole[a.len() as int] == c);
    assert(whole == x + seq![c] + y);
    assert(whole[x.len() as int] == c);
    if a.len() < x.len() {
        assert(x[a.len() as int] == c);
    }
    if x.len() < a.len() {
        assert(a[x.len() as int] == c);
    }
    assert(a =~= whole.take(a.len() as int));
    assert(x =~= whole.take(a.len() as int));
    assert(b =~= whole.skip(a.len() as int + 1));
    assert(y =~= whole.skip(a.len() as int + 1));
}

/// Text on both sides of the last `c` is determined by the whole.
pub proof fn lemma_split_at_last(a: Seq<char>, b: Seq<char>, x: Seq<char>, y: Seq<char>, c: char)
    requires
        a + seq![c] + b == x + seq![c] + y,
        !b.contains(c),
        !y.contains(c),
    ensures
        a == x,
        b == y,
{
    let whole = a + seq![c] + b;
    assert(whole == x + seq![c] + y);
    assert(whole[a.len() as int] == c);
    assert(whole[x.len() as int] == c);
    assert(a.len() + b.len() == x.len() + y.len());
    if a.len() < x.len() {
        assert(whole[x.len() as int] == b[x.len() - a.len() - 1]);
    }
    if x.len() < a.len() {
        assert(whole[a.len() as int] == y[a.len() - x.len() - 1]);
    }
    assert(a =~= whole.take(a.len() as int));
    assert(x =~= whole.take(a.len() as int));
    assert(b =~= whole.skip(a.len() as int + 1));
    assert(y =~= whole.skip(a.len() as int + 1));
}

/// A digit spells its own value; a further digit multiplies what the digits before it spell by ten
/// and adds its own value, as long as that fits in 64 bits; and a leading plus sign says nothing.
pub proof fn law_digits_spell_a_number(digits: Seq<char>, last: char)
    requires
        digits.len() > 0,
        forall|i: int| 0 <= i < digits.len() ==> '0' <= #[trigger] digits[i] <= '9',
        '0' <= last <= '9',
    ensures
        parsed_u64(seq![last]) == Some((last as int - '0' as int) as u64),
        parsed_u64(seq!['+'] + digits) == parsed_u64(digits),
        match parsed_u64(digits) {
            Some(value) => {
                let longer = 10 * value + (last as int - '0' as int);
                parsed_u64(digits.push(last)) == if longer <= 0xffff_ffff_ffff_ffff {
                    Some(longer as u64)
                } else {
                    None
                }
            },
            None => parsed_u64(digits.push(last)) is None,
        },
{
    assert(all_digits(digits));
    let one = seq![last];
    assert(one.drop_last() =~= Seq::<char>::empty());
    assert(decimal_value(one.drop_last()) == 0);
    assert(decimal_value(one) == digit_value(last));
    assert(all_digits(one));
    assert((seq!['+'] + digits).skip(1) =~= digits);
    assert(digits[0] != '+');
    let longer = digits.push(last);
    assert(longer.drop_last() =~= digits);
    assert(all_digits(longer));
    lemma_decimal_value_grows(digits, 0);
    assert(longer[0] == digits[0]);
}

/// Text with anything but digits after an optional plus sign, or with nothing there, spells no
/// number.
pub proof fn law_only_digits_spell_a_number(text: Seq<char>, i: int)
    requires
        0 <= i < text.len(),
        !('0' <= text[i] <= '9'),
    ensures
        i > 0 || text[0] != '+' ==> parsed_u64(text) is None,
        parsed_u64(seq!['+']) is None,
        parsed_u64(Seq::empty()) is None,
{
    assert(seq!['+'].skip(1) =~= Seq::<char>::empty());
    let digits = unsigned_digits(text);
    if i > 0 && text[0] == '+' {
        assert(digits[i - 1] == text[i]);
    } else if text[0] != '+' {
        assert(digits[i] == text[i]);
    }
}

/// A number is written with digits alone, the first of them no zero unless it is the only one, and
/// a negative one with a minus sign before the digits of its magnitude.
pub proof fn law_decimal_is_written_in_digits(n: nat)
    ensures
        decimal(n).len() > 0,
        forall|i: int| 0 <= i < decimal(n).len() ==> '0' <= #[trigger] decimal(n)[i] <= '9',
        decimal(n)[0] == '0' <==> n == 0,
        decimal(n).len() > 1 <==> n >= 10,
        signed_decimal(n as int) == decimal(n),
        n > 0 ==> signed_decimal(-n) == seq!['-'] + decimal(n),
    decreases n,
{
    lemma_decimal_is_digits(n);
    assert forall|i: int| 0 <= i < decimal(n).len() implies '0' <= #[trigger] decimal(n)[i]
        <= '9' by {
        assert(is_digit(decimal(n)[i]));
    }
    if n >= 10 {
        law_decimal_is_written_in_digits(n / 10);
        assert(decimal(n)[0] == decimal(n / 10)[0]);
    }
}

/// Two texts are the same but for the case of letters exactly when they are equally long and every
/// character of one is that of the other, or its upper or lower case where it is one of A to Z.
pub proof fn law_only_the_case_of_ascii_letters_is_ignored(a: Seq<char>, b: Seq<char>)
    ensures
        same_ignoring_ascii_case(a, b) <==> a.len() == b.len() && forall|i: int|
            0 <= i < a.len() ==> {
                ||| #[trigger] a[i] == b[i]
                ||| 'A' <= a[i] <= 'Z' && b[i] as int == a[i] as int + 32
                ||| 'A' <= b[i] <= 'Z' && a[i] as int == b[i] as int + 32
            },
{
    if same_ignoring_ascii_case(a, b) {
        assert forall|i: int| 0 <= i < a.len() implies {
            ||| #[trigger] a[i] == b[i]
            ||| 'A' <= a[i] <= 'Z' && b[i] as int == a[i] as int + 32
            ||| 'A' <= b[i] <= 'Z' && a[i] as int == b[i] as int + 32
        } by {
            assert(ascii_lower(a[i]) == ascii_lower(b[i]));
        }
    }
}

} // verus!
