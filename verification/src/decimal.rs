use vstd::prelude::*;

verus! {

pub open spec fn is_digit(c: char) -> bool {
    '0' <= c <= '9'
}

pub open spec fn digit_value(c: char) -> int {
    c as int - '0' as int
}

pub open spec fn all_digits(s: Seq<char>) -> bool {
    forall|i: int| 0 <= i < s.len() ==> is_digit(#[trigger] s[i])
}

/// The number that a string of decimal digits writes.
pub open spec fn decimal_value(s: Seq<char>) -> int
    decreases s.len(),
{
    if s.len() == 0 {
        0
    } else {
        decimal_value(s.drop_last()) * 10 + digit_value(s.last())
    }
}

/// The digits of a decimal number with an optional leading `+`, when the
/// text is one.
pub open spec fn unsigned_digits(s: Seq<char>) -> Option<Seq<char>> {
    let body = if s.len() > 0 && s[0] == '+' { s.drop_first() } else { s };
    if body.len() > 0 && all_digits(body) { Some(body) } else { None }
}

/// What parsing `s` as an unsigned integer no larger than `max` gives:
/// an optional `+` and at least one ASCII digit, nothing else, and a
/// value in range.
pub open spec fn parse_unsigned(s: Seq<char>, max: int) -> Option<int> {
    match unsigned_digits(s) {
        Some(body) => if decimal_value(body) <= max { Some(decimal_value(body)) } else { None },
        None => None,
    }
}

/// What parsing `s` as a 32-bit signed integer gives: an optional `+` or
/// `-`, at least one ASCII digit, nothing else, and a value in range.
pub open spec fn parse_signed32(s: Seq<char>) -> Option<int> {
    if s.len() > 0 && s[0] == '-' {
        let body = s.drop_first();
        if body.len() > 0 && all_digits(body) && decimal_value(body) <= 0x8000_0000 {
            Some(-decimal_value(body))
        } else {
            None
        }
    } else {
        parse_unsigned(s, 0x7fff_ffff)
    }
}

proof fn lemma_decimal_value_nonneg(s: Seq<char>)
    requires
        all_digits(s),
    ensures
        decimal_value(s) >= 0,
    decreases s.len(),
{
    if s.len() > 0 {
        lemma_decimal_value_nonneg(s.drop_last());
    }
}

/// A longer string of digits never writes a smaller number than its prefix.
proof fn lemma_decimal_value_grows(s: Seq<char>, k: int)
    requires
        all_digits(s),
        0 <= k <= s.len(),
    ensures
        decimal_value(s.take(k)) <= decimal_value(s),
    decreases s.len() - k,
{
    if k < s.len() {
        lemma_decimal_value_grows(s, k + 1);
        assert(s.take(k + 1).drop_last() =~= s.take(k));
        lemma_decimal_value_nonneg(s.take(k));
    } else {
        assert(s.take(k) =~= s);
    }
}

/// Reads the digits `s[start..]` as a number no larger than `max`.
fn digits_value(s: &str, start: usize, max: u64) -> (r: Option<u64>)
    requires
        start <= s@.len(),
        9 <= max,
    ensures
        ({
            let body = s@.skip(start as int);
            &&& r is Some == (body.len() > 0 && all_digits(body) && decimal_value(body) <= max)
            &&& r matches Some(v) ==> v as int == decimal_value(body)
        }),
{
    let ghost body = s@.skip(start as int);
    let n = s.unicode_len();
    if start == n {
        return None;
    }
    let mut acc: u64 = 0;
    let mut i = start;
    while i < n
        invariant
            n == s@.len(),
            start <= i <= n,
            body == s@.skip(start as int),
            body.len() > 0,
            all_digits(body.take(i - start)),
            acc == decimal_value(body.take(i - start)),
            acc <= max,
            9 <= max,
        decreases n - i,
    {
        let c = s.get_char(i);
        assert(body[i - start] == c);
        if !('0' <= c && c <= '9') {
            assert(!all_digits(body));
            return None;
        }
        let d = (c as u32 - '0' as u32) as u64;
        assert(body.take(i - start + 1).drop_last() =~= body.take(i - start));
        if acc > (max - d) / 10 {
            proof {
                assert(decimal_value(body.take(i - start + 1)) == acc * 10 + d);
                assert(acc * 10 + d > max) by (nonlinear_arith)
                    requires
                        acc > (max - d) / 10,
                        d <= 9,
                        9 <= max,
                ;
                assert(all_digits(body.take(i - start + 1)));
                if all_digits(body) {
                    lemma_decimal_value_grows(body, i - start + 1);
                }
            }
            return None;
        }
        assert(acc * 10 + d <= max) by (nonlinear_arith)
            requires
                acc <= (max - d) / 10,
                d <= 9,
                9 <= max,
        ;
        acc = acc * 10 + d;
        i = i + 1;
    }
    assert(body.take(n - start) =~= body);
    proof {
        lemma_decimal_value_nonneg(body);
    }
    Some(acc)
}

/// Parses a decimal `usize` as the standard library does: an optional
/// `+`, at least one ASCII digit and nothing else, within range.
pub fn parse_usize(s: &str) -> (r: Option<usize>)
    ensures
        r is Some == parse_unsigned(s@, usize::MAX as int) is Some,
        r matches Some(v) ==> parse_unsigned(s@, usize::MAX as int) == Some(v as int),
{
    let start: usize = if s.unicode_len() > 0 && s.get_char(0) == '+' { 1 } else { 0 };
    assert(start == 1 ==> s@.drop_first() =~= s@.skip(1));
    assert(start == 0 ==> s@ =~= s@.skip(0));
    match digits_value(s, start, usize::MAX as u64) {
        Some(v) => Some(v as usize),
        None => None,
    }
}

/// Parses a decimal `i32` as the standard library does: an optional `+`
/// or `-`, at least one ASCII digit and nothing else, within range.
pub fn parse_i32(s: &str) -> (r: Option<i32>)
    ensures
        r is Some == parse_signed32(s@) is Some,
        r matches Some(v) ==> parse_signed32(s@) == Some(v as int),
{
    let n = s.unicode_len();
    if n > 0 && s.get_char(0) == '-' {
        assert(s@.drop_first() =~= s@.skip(1));
        match digits_value(s, 1, 0x8000_0000) {
            Some(v) => {
                let m = v as i64;
                Some((-m) as i32)
            },
            None => None,
        }
    } else {
        let start: usize = if n > 0 && s.get_char(0) == '+' { 1 } else { 0 };
        assert(start == 1 ==> s@.drop_first() =~= s@.skip(1));
        assert(start == 0 ==> s@ =~= s@.skip(0));
        match digits_value(s, start, 0x7fff_ffff) {
            Some(v) => Some(v as i32),
            None => None,
        }
    }
}

/// The digit character for a digit value.
pub open spec fn digit_char(d: int) -> char {
    (d + '0' as int) as char
}

/// How a number is written in decimal, as `to_string` prints it.
pub open spec fn decimal_text(n: nat) -> Seq<char>
    decreases n,
{
    if n < 10 {
        seq![digit_char(n as int)]
    } else {
        decimal_text(n / 10).push(digit_char((n % 10) as int))
    }
}

proof fn lemma_decimal_text(n: nat)
    ensures
        decimal_text(n).len() > 0,
        all_digits(decimal_text(n)),
        decimal_text(n)[0] != '+',
        decimal_value(decimal_text(n)) == n,
    decreases n,
{
    let t = decimal_text(n);
    let d = (n % 10) as int;
    assert(digit_value(digit_char(d)) == d && is_digit(digit_char(d))) by {
        assert(0 <= d < 10);
        assert((d + '0' as int) as char as int == d + '0' as int);
    }
    if n < 10 {
        assert(n % 10 == n);
        assert(t.drop_last() =~= Seq::<char>::empty());
        assert(t.last() == digit_char(d));
        assert(decimal_value(t) == decimal_value(t.drop_last()) * 10 + digit_value(t.last()));
    } else {
        lemma_decimal_text(n / 10);
        let u = decimal_text(n / 10);
        assert(t.drop_last() =~= u);
        assert(t.last() == digit_char(d));
        assert(decimal_value(t) == decimal_value(u) * 10 + d);
        assert((n / 10) * 10 + n % 10 == n);
        assert(t[0] == u[0]);
        assert forall|i: int| 0 <= i < t.len() implies is_digit(#[trigger] t[i]) by {
            if i < u.len() {
                assert(t[i] == u[i]);
            }
        }
    }
}

/// A number written in decimal parses back to itself.
pub proof fn printed_numbers_parse_back(n: nat, max: int)
    requires
        n <= max,
    ensures
        parse_unsigned(decimal_text(n), max) == Some(n as int),
{
    lemma_decimal_text(n);
}

/// A number written in decimal after `-` parses back, as a signed
/// number, to its negative; a text that starts with `-` is no unsigned
/// number; and a text with a character that is no digit after its first
/// character is no number at all.
pub proof fn signs_and_digits(s: Seq<char>, n: nat, max: int, k: int)
    requires
        n <= 0x8000_0000,
    ensures
        parse_signed32(seq!['-'] + decimal_text(n)) == Some(-(n as int)),
        s.len() > 0 && s[0] == '-' ==> parse_unsigned(s, max) is None,
        0 < k < s.len() && !is_digit(s[k]) ==> parse_unsigned(s, max) is None && parse_signed32(s) is None,
{
    lemma_decimal_text(n);
    let t = seq!['-'] + decimal_text(n);
    assert(t[0] == '-');
    assert(t.drop_first() =~= decimal_text(n));
    if 0 < k < s.len() && !is_digit(s[k]) {
        if s[0] == '+' || s[0] == '-' {
            assert(s.drop_first()[k - 1] == s[k]);
        }
    }
}

} // verus!
