//! Small text tools: prefixes, splitting, and decimal numbers.

use vstd::prelude::*;
use vstd::string::*;

verus! {

/// `String::push` appends one character.
pub assume_specification[ String::push ](s: &mut String, c: char)
    ensures
        final(s)@ == old(s)@.push(c),
;

/// The characters of a string.
pub fn chars_of(s: &str) -> (chars: Vec<char>)
    ensures
        chars@ == s@,
{
    let mut chars: Vec<char> = Vec::new();
    for c in it: s.chars()
        invariant
            it.seq() == s@,
            chars@ == s@.take(it.index@),
    {
        chars.push(c);
    }
    assert(s@.take(s@.len() as int) =~= s@);
    chars
}

/// The string that holds the given characters.
pub fn string_of(chars: &[char]) -> (s: String)
    ensures
        s@ == chars@,
{
    let mut s: String = String::new();
    let mut i: usize = 0;
    while i < chars.len()
        invariant
            i <= chars@.len(),
            s@ == chars@.take(i as int),
        decreases chars@.len() - i,
    {
        s.push(chars[i]);
        i += 1;
        assert(chars@.take(i as int) =~= chars@.take(i - 1).push(chars@[i - 1]));
    }
    assert(chars@.take(i as int) =~= chars@);
    s
}

/// Whether two strings hold the same characters.
pub fn same_text(a: &str, b: &str) -> (same: bool)
    ensures
        same == (a@ == b@),
{
    let x: &[u8] = a.as_bytes();
    let y: &[u8] = b.as_bytes();
    proof {
        vstd::utf8::encode_utf8_decode_utf8(a@);
        vstd::utf8::encode_utf8_decode_utf8(b@);
    }
    if x.len() != y.len() {
        return false;
    }
    let mut i: usize = 0;
    while i < x.len()
        invariant
            i <= x@.len(),
            x@.len() == y@.len(),
            x@ == a.spec_bytes(),
            y@ == b.spec_bytes(),
            forall|j: int| 0 <= j < i ==> x@[j] == y@[j],
        decreases x@.len() - i,
    {
        if x[i] != y[i] {
            return false;
        }
        i += 1;
    }
    assert(x@ =~= y@);
    true
}

/// Whether `s` starts with `prefix`.
pub open spec fn starts_with(s: Seq<char>, prefix: Seq<char>) -> bool {
    prefix.len() <= s.len() && s.take(prefix.len() as int) == prefix
}

/// What follows `prefix` in `s`.
pub open spec fn after_prefix(s: Seq<char>, prefix: Seq<char>) -> Option<Seq<char>> {
    if starts_with(s, prefix) {
        Some(s.skip(prefix.len() as int))
    } else {
        None
    }
}

/// Position of the first `c` in `s`, or the length of `s`.
pub open spec fn first_index(s: Seq<char>, c: char) -> int
    decreases s.len(),
{
    if s.len() == 0 || s[0] == c {
        0
    } else {
        1 + first_index(s.skip(1), c)
    }
}

/// `s` cut at its first `c`, which belongs to neither side.
pub open spec fn cut_at(s: Seq<char>, c: char) -> Option<(Seq<char>, Seq<char>)> {
    let i = first_index(s, c);
    if i < s.len() {
        Some((s.take(i), s.skip(i + 1)))
    } else {
        None
    }
}

pub proof fn lemma_first_index_bound(s: Seq<char>, c: char)
    ensures
        0 <= first_index(s, c) <= s.len(),
    decreases s.len(),
{
    if s.len() > 0 && s[0] != c {
        lemma_first_index_bound(s.skip(1), c);
    }
}

pub proof fn lemma_first_index(s: Seq<char>, c: char, i: int)
    requires
        0 <= i <= s.len(),
        forall|j: int| 0 <= j < i ==> s[j] != c,
        i < s.len() ==> s[i] == c,
    ensures
        first_index(s, c) == i,
    decreases s.len(),
{
    if i > 0 {
        assert forall|j: int| 0 <= j < i - 1 implies s.skip(1)[j] != c by {
            assert(s.skip(1)[j] == s[j + 1]);
        }
        lemma_first_index(s.skip(1), c, i - 1);
    }
}

/// Whether `s` starts with `prefix`, on slices.
pub fn has_prefix(s: &[char], prefix: &[char]) -> (yes: bool)
    ensures
        yes == starts_with(s@, prefix@),
{
    if s.len() < prefix.len() {
        return false;
    }
    let mut i: usize = 0;
    while i < prefix.len()
        invariant
            i <= prefix@.len() <= s@.len(),
            forall|j: int| 0 <= j < i ==> s@[j] == prefix@[j],
        decreases prefix@.len() - i,
    {
        if s[i] != prefix[i] {
            assert(s@.take(prefix@.len() as int)[i as int] == s@[i as int]);
            return false;
        }
        i += 1;
    }
    assert(s@.take(prefix@.len() as int) =~= prefix@);
    true
}

/// What follows `prefix` in `s`.
pub fn strip_prefix<'a>(s: &'a [char], prefix: &str) -> (rest: Option<&'a [char]>)
    ensures
        match rest {
            Some(rest) => after_prefix(s@, prefix@) == Some(rest@),
            None => after_prefix(s@, prefix@) is None,
        },
{
    let p: Vec<char> = chars_of(prefix);
    if has_prefix(s, p.as_slice()) {
        let (_, rest) = s.split_at(p.len());
        assert(rest@ =~= s@.skip(p@.len() as int));
        Some(rest)
    } else {
        None
    }
}

/// `s` cut at its first `c`.
pub fn split_once(s: &[char], c: char) -> (parts: Option<(&[char], &[char])>)
    ensures
        match parts {
            Some((head, tail)) => cut_at(s@, c) == Some((head@, tail@)),
            None => cut_at(s@, c) is None,
        },
{
    let mut i: usize = 0;
    while i < s.len()
        invariant
            i <= s@.len(),
            forall|j: int| 0 <= j < i ==> s@[j] != c,
        decreases s@.len() - i,
    {
        if s[i] == c {
            proof {
                lemma_first_index(s@, c, i as int);
            }
            let (head, tail) = s.split_at(i);
            let (_, rest) = tail.split_at(1);
            assert(head@ =~= s@.take(i as int));
            assert(rest@ =~= s@.skip(i + 1));
            return Some((head, rest));
        }
        i += 1;
    }
    proof {
        lemma_first_index(s@, c, i as int);
    }
    None
}

/// The value of a decimal digit.
pub open spec fn digit_value(c: char) -> Option<nat> {
    if '0' <= c <= '9' {
        Some((c as u32 - '0' as u32) as nat)
    } else {
        None
    }
}

/// The digit for a value below ten.
pub open spec fn digit_char(d: nat) -> char {
    if d == 0 {
        '0'
    } else if d == 1 {
        '1'
    } else if d == 2 {
        '2'
    } else if d == 3 {
        '3'
    } else if d == 4 {
        '4'
    } else if d == 5 {
        '5'
    } else if d == 6 {
        '6'
    } else if d == 7 {
        '7'
    } else if d == 8 {
        '8'
    } else {
        '9'
    }
}

/// `n` in decimal, without leading zeros.
pub open spec fn decimal(n: nat) -> Seq<char>
    decreases n,
{
    if n < 10 {
        seq![digit_char(n)]
    } else {
        decimal(n / 10).push(digit_char(n % 10))
    }
}

/// The number that a run of digits writes.
pub open spec fn digits_value(s: Seq<char>) -> Option<nat>
    decreases s.len(),
{
    if s.len() == 0 {
        Some(0)
    } else {
        match (digits_value(s.drop_last()), digit_value(s.last())) {
            (Some(head), Some(d)) => Some(head * 10 + d),
            _ => None,
        }
    }
}

/// The unsigned number no greater than `max` that `s` writes: an optional `+`
/// sign and then one digit or more.
pub open spec fn parsed_unsigned(s: Seq<char>, max: nat) -> Option<nat> {
    let digits = if s.len() > 0 && s[0] == '+' {
        s.skip(1)
    } else {
        s
    };
    if digits.len() == 0 {
        None
    } else {
        match digits_value(digits) {
            Some(n) => if n <= max {
                Some(n)
            } else {
                None
            },
            None => None,
        }
    }
}

/// Reading back a written number gives the number.
pub proof fn law_decimal_round_trip(n: nat, max: nat)
    requires
        n <= max,
    ensures
        parsed_unsigned(decimal(n), max) == Some(n),
{
    lemma_decimal_digits(n);
}

/// A number may have a plus sign and zeros in front of its digits, and is the
/// same number with them; one that is too large is none.
pub proof fn law_signs_and_zeros_change_nothing(n: nat, max: nat)
    ensures
        n <= max ==> parsed_unsigned(seq!['+'] + decimal(n), max) == Some(n),
        n <= max ==> parsed_unsigned(seq!['0'] + decimal(n), max) == Some(n),
        n > max ==> parsed_unsigned(decimal(n), max) is None,
        parsed_unsigned(seq!['+'], max) is None,
        parsed_unsigned(Seq::empty(), max) is None,
{
    let d = decimal(n);
    lemma_decimal_digits(n);
    let signed = seq!['+'] + d;
    assert(signed.skip(1) =~= d);
    lemma_leading_zero(d);
    assert(seq!['+'].skip(1) =~= Seq::<char>::empty());
}

proof fn lemma_leading_zero(s: Seq<char>)
    ensures
        digits_value(seq!['0'] + s) == digits_value(s),
    decreases s.len(),
{
    let t = seq!['0'] + s;
    if s.len() == 0 {
        assert(t.drop_last() =~= Seq::<char>::empty());
        assert(t.last() == '0');
        assert(digits_value(t.drop_last()) == Some(0nat));
        assert(digit_value('0') == Some(0nat));
    } else {
        lemma_leading_zero(s.drop_last());
        assert(t.drop_last() =~= seq!['0'] + s.drop_last());
        assert(t.last() == s.last());
    }
}

proof fn lemma_all_digits(s: Seq<char>, i: int)
    requires
        digits_value(s) is Some,
        0 <= i < s.len(),
    ensures
        digit_value(s[i]) is Some,
    decreases s.len(),
{
    if i < s.len() - 1 {
        lemma_all_digits(s.drop_last(), i);
    }
}

/// Only digits are numbers: whatever is read as one has a digit everywhere but
/// for a plus sign at its start.
pub proof fn law_only_digits_are_numbers(s: Seq<char>, max: nat, i: int)
    requires
        parsed_unsigned(s, max) is Some,
        0 <= i < s.len(),
    ensures
        '0' <= s[i] <= '9' || (i == 0 && s[i] == '+' && s.len() > 1),
{
    if s[0] == '+' {
        if i > 0 {
            lemma_all_digits(s.skip(1), i - 1);
        }
    } else {
        lemma_all_digits(s, i);
    }
}

pub proof fn lemma_decimal_digits(n: nat)
    ensures
        decimal(n).len() > 0,
        decimal(n)[0] != '+',
        digits_value(decimal(n)) == Some(n),
        forall|i: int|
            #![trigger decimal(n)[i]]
            0 <= i < decimal(n).len() ==> digit_value(decimal(n)[i]) is Some,
    decreases n,
{
    if n < 10 {
        let s = decimal(n);
        assert(s.drop_last() =~= Seq::<char>::empty());
        assert(s.last() == digit_char(n));
        assert(digits_value(s.drop_last()) == Some(0nat));
    } else {
        lemma_decimal_digits(n / 10);
        let s = decimal(n);
        assert(s.drop_last() =~= decimal(n / 10));
        assert(s[0] == decimal(n / 10)[0]);
        assert forall|i: int| #![trigger s[i]] 0 <= i < s.len() implies digit_value(s[i]) is Some by {
            if i < s.len() - 1 {
                assert(s[i] == decimal(n / 10)[i]);
            }
        }
    }
}

/// No prefix of a run of digits writes more than the whole run.
proof fn lemma_digits_prefix(s: Seq<char>, i: int)
    requires
        0 <= i <= s.len(),
        digits_value(s) is Some,
    ensures
        digits_value(s.take(i)) is Some,
        digits_value(s.take(i))->0 <= digits_value(s)->0,
    decreases s.len() - i,
{
    if i == s.len() {
        assert(s.take(i) =~= s);
    } else {
        lemma_digits_prefix(s, i + 1);
        assert(s.take(i + 1).drop_last() =~= s.take(i));
    }
}

/// The unsigned number no greater than `max` that `s` writes.
pub fn parse_unsigned(s: &[char], max: u64) -> (n: Option<u64>)
    ensures
        match n {
            Some(n) => parsed_unsigned(s@, max as nat) == Some(n as nat),
            None => parsed_unsigned(s@, max as nat) is None,
        },
{
    let digits: &[char] = if s.len() > 0 && s[0] == '+' {
        let (_, rest) = s.split_at(1);
        assert(rest@ =~= s@.skip(1));
        rest
    } else {
        s
    };
    if digits.len() == 0 {
        return None;
    }
    let mut n: u64 = 0;
    let mut i: usize = 0;
    assert(digits@.take(0) =~= Seq::<char>::empty());
    while i < digits.len()
        invariant
            i <= digits@.len(),
            0 < digits@.len(),
            digits@ == (if s@.len() > 0 && s@[0] == '+' {
                s@.skip(1)
            } else {
                s@
            }),
            n <= max,
            digits_value(digits@.take(i as int)) == Some(n as nat),
        decreases digits@.len() - i,
    {
        let c: char = digits[i];
        proof {
            if digits_value(digits@) is Some {
                lemma_digits_prefix(digits@, i + 1);
            }
            assert(digits@.take(i + 1).drop_last() =~= digits@.take(i as int));
            assert(digits@.take(i + 1).last() == c);
        }
        if c < '0' || '9' < c {
            return None;
        }
        let d: u64 = (c as u32 - '0' as u32) as u64;
        let next: u64 = match n.checked_mul(10) {
            Some(tens) => match tens.checked_add(d) {
                Some(next) => next,
                None => {
                    return None;
                },
            },
            None => {
                return None;
            },
        };
        if next > max {
            return None;
        }
        n = next;
        i += 1;
    }
    assert(digits@.take(i as int) =~= digits@);
    Some(n)
}

fn digit(d: u64) -> (c: char)
    requires
        d < 10,
    ensures
        c == digit_char(d as nat),
{
    if d == 0 {
        '0'
    } else if d == 1 {
        '1'
    } else if d == 2 {
        '2'
    } else if d == 3 {
        '3'
    } else if d == 4 {
        '4'
    } else if d == 5 {
        '5'
    } else if d == 6 {
        '6'
    } else if d == 7 {
        '7'
    } else if d == 8 {
        '8'
    } else {
        '9'
    }
}

/// Appends `n` in decimal.
pub fn push_decimal(out: &mut String, n: u64)
    ensures
        final(out)@ == old(out)@ + decimal(n as nat),
    decreases n,
{
    if n >= 10 {
        push_decimal(out, n / 10);
    }
    out.push(digit(n % 10));
    assert(out@ =~= old(out)@ + decimal(n as nat));
}

/// `n` in decimal.
pub fn decimal_string(n: u64) -> (s: String)
    ensures
        s@ == decimal(n as nat),
{
    let mut s: String = String::new();
    push_decimal(&mut s, n);
    assert(s@ =~= decimal(n as nat));
    s
}

} // verus!
