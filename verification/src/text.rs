//! Small verified building blocks for text: comparing, rendering numbers,
//! parsing numbers and cutting prefixes.
use vstd::prelude::*;
use vstd::string::*;

verus! {

/// Specifies `str`'s `PartialEq::eq`. Claimed: two texts are equal exactly
/// when they hold the same characters in the same order.
pub assume_specification[ <str as PartialEq<str>>::eq ](a: &str, b: &str) -> (r: bool)
    ensures
        r == (a@ == b@),
;

/// Whether two texts hold the same characters.
pub fn str_eq(a: &str, b: &str) -> (r: bool)
    ensures
        r == (a@ == b@),
{
    a.eq(b)
}

/// The upper-case form of a text, as the standard library gives it.
pub uninterp spec fn uppercase_of(text: Seq<char>) -> Seq<char>;

/// The lower-case form of a text, as the standard library gives it.
pub uninterp spec fn lowercase_of(text: Seq<char>) -> Seq<char>;

/// Whether a character is white space, as the standard library tells it.
pub uninterp spec fn is_white_space(c: char) -> bool;

/// Specifies `char::is_whitespace`. Claimed: only that the answer depends on
/// the character alone.
pub assume_specification[ char::is_whitespace ](c: char) -> (r: bool)
    ensures
        r == is_white_space(c),
;

/// What reading the first `n` characters of a text leaves: the words that
/// have ended, and the characters of the word that has not.
pub open spec fn scanned(text: Seq<char>, n: int) -> (Seq<Seq<char>>, Seq<char>)
    decreases n,
{
    if n <= 0 {
        (Seq::empty(), Seq::empty())
    } else {
        let (ended, running) = scanned(text, n - 1);
        if !is_white_space(text[n - 1]) {
            (ended, running.push(text[n - 1]))
        } else if running.len() > 0 {
            (ended.push(running), Seq::empty())
        } else {
            (ended, running)
        }
    }
}

/// The words of a text: its longest runs of characters that are not white
/// space, in their order.
pub open spec fn words_of(text: Seq<char>) -> Seq<Seq<char>> {
    let (ended, running) = scanned(text, text.len() as int);
    if running.len() > 0 {
        ended.push(running)
    } else {
        ended
    }
}

/// What a list of texts holds, text by text.
pub open spec fn texts_view(texts: Seq<String>) -> Seq<Seq<char>> {
    Seq::new(texts.len(), |i: int| texts[i]@)
}

/// Calls `str::to_uppercase`. Claimed: only that the answer depends on the
/// text alone.
#[verifier::external_body]
pub(crate) fn to_uppercase(text: &str) -> (r: String)
    ensures
        r@ == uppercase_of(text@),
{
    text.to_uppercase()
}

/// Calls `str::to_lowercase`. Claimed: only that the answer depends on the
/// text alone.
#[verifier::external_body]
pub(crate) fn to_lowercase(text: &str) -> (r: String)
    ensures
        r@ == lowercase_of(text@),
{
    text.to_lowercase()
}

/// Specifies `String::push`. Claimed: the text afterwards is the text before
/// with the character at its end.
pub assume_specification[ String::push ](s: &mut String, c: char)
    ensures
        final(s)@ == old(s)@.push(c),
;

/// The character that shows the decimal digit `d`.
pub open spec fn digit_char(d: int) -> char {
    if d == 0 {
        '0'
    } else if d == 1 {
        '1'
    } else if d == 2 {
        '2'
    } else if d == 3 {
        '3'
    } else if d == 4 {
        '4'
    } else if d == 5 {
        '5'
    } else if d == 6 {
        '6'
    } else if d == 7 {
        '7'
    } else if d == 8 {
        '8'
    } else {
        '9'
    }
}

/// The decimal numeral of `n`, without leading zeros.
pub open spec fn decimal(n: nat) -> Seq<char>
    decreases n,
{
    if n < 10 {
        seq![digit_char(n as int)]
    } else {
        decimal(n / 10).push(digit_char((n % 10) as int))
    }
}

/// The decimal numeral of `i`, with a leading minus sign when negative.
pub open spec fn signed_decimal(i: int) -> Seq<char> {
    if i < 0 {
        seq!['-'] + decimal((-i) as nat)
    } else {
        decimal(i as nat)
    }
}

/// The numeral of `n` padded with a zero to two places.
pub open spec fn two_digits(n: nat) -> Seq<char> {
    if n < 10 {
        seq!['0', digit_char(n as int)]
    } else {
        decimal(n)
    }
}

/// The character that shows the decimal digit `d`.
pub fn digit_to_char(d: u8) -> (c: char)
    requires
        d < 10,
    ensures
        c == digit_char(d as int),
{
    if d == 0 {
        '0'
    } else if d == 1 {
        '1'
    } else if d == 2 {
        '2'
    } else if d == 3 {
        '3'
    } else if d == 4 {
        '4'
    } else if d == 5 {
        '5'
    } else if d == 6 {
        '6'
    } else if d == 7 {
        '7'
    } else if d == 8 {
        '8'
    } else {
        '9'
    }
}

/// Appends the decimal numeral of `n` to `out`.
pub fn push_decimal(out: &mut String, n: u64)
    ensures
        final(out)@ == old(out)@ + decimal(n as nat),
    decreases n,
{
    if n >= 10 {
        push_decimal(out, n / 10);
    }
    let d: u8 = (n % 10) as u8;
    out.push(digit_to_char(d));
    proof {
        assert(final(out)@ =~= old(out)@ + decimal(n as nat));
    }
}

/// Appends the numeral of `i`, with its sign when negative.
pub fn push_signed_decimal(out: &mut String, i: i64)
    ensures
        final(out)@ == old(out)@ + signed_decimal(i as int),
{
    if i < 0 {
        out.push('-');
        let magnitude: u64 = (-(i as i128)) as u64;
        push_decimal(out, magnitude);
        proof {
            assert(final(out)@ =~= old(out)@ + signed_decimal(i as int));
        }
    } else {
        push_decimal(out, i as u64);
    }
}

/// Appends `n` in two places, zero padded.
pub fn push_two_digits(out: &mut String, n: u64)
    ensures
        final(out)@ == old(out)@ + two_digits(n as nat),
{
    if n < 10 {
        out.push('0');
        out.push(digit_to_char(n as u8));
        proof {
            assert(final(out)@ =~= old(out)@ + two_digits(n as nat));
        }
    } else {
        push_decimal(out, n);
    }
}

/// The characters of `s`, one by one.
pub fn chars_of(s: &str) -> (v: Vec<char>)
    ensures
        v@ == s@,
{
    let n: usize = s.unicode_len();
    let mut v: Vec<char> = Vec::new();
    let mut i: usize = 0;
    while i < n
        invariant
            i <= n,
            n == s@.len(),
            v@ == s@.subrange(0, i as int),
        decreases n - i,
    {
        v.push(s.get_char(i));
        i += 1;
        proof {
            assert(v@ =~= s@.subrange(0, i as int));
        }
    }
    proof {
        assert(v@ =~= s@);
    }
    v
}

/// Appends the characters `v[from..to]` to `out`.
pub fn push_chars(out: &mut String, v: &Vec<char>, from: usize, to: usize)
    requires
        from <= to <= v@.len(),
    ensures
        final(out)@ == old(out)@ + v@.subrange(from as int, to as int),
{
    let mut i: usize = from;
    while i < to
        invariant
            from <= i <= to <= v@.len(),
            out@ == old(out)@ + v@.subrange(from as int, i as int),
        decreases to - i,
    {
        out.push(v[i]);
        i += 1;
        proof {
            assert(out@ =~= old(out)@ + v@.subrange(from as int, i as int));
        }
    }
}

/// The text made of the characters `v[from..to]`.
pub fn string_of_chars(v: &Vec<char>, from: usize, to: usize) -> (r: String)
    requires
        from <= to <= v@.len(),
    ensures
        r@ == v@.subrange(from as int, to as int),
{
    let mut out = String::new();
    push_chars(&mut out, v, from, to);
    proof {
        assert(out@ =~= v@.subrange(from as int, to as int));
    }
    out
}

/// Whether `c` is one of the ten decimal digits.
pub open spec fn is_digit(c: char) -> bool {
    '0' <= c && c <= '9'
}

/// The number that a decimal digit stands for.
pub open spec fn digit_value(c: char) -> int {
    c as int - '0' as int
}

/// Whether every character of `s` is a decimal digit.
pub open spec fn all_digits(s: Seq<char>) -> bool {
    forall|i: int| 0 <= i < s.len() ==> is_digit(#[trigger] s[i])
}

/// The number that a run of decimal digits writes.
pub open spec fn digits_value(s: Seq<char>) -> nat
    decreases s.len(),
{
    if s.len() == 0 {
        0
    } else {
        (digits_value(s.drop_last()) * 10 + digit_value(s.last())) as nat
    }
}

/// The integer that the digits `body` write under the given sign, if they are
/// digits and the integer lies in `lo..=hi`.
pub open spec fn int_of_digits(body: Seq<char>, negative: bool, lo: int, hi: int) -> Option<int> {
    let value = if negative {
        -(digits_value(body) as int)
    } else {
        digits_value(body) as int
    };
    if body.len() == 0 || !all_digits(body) || value < lo || value > hi {
        None
    } else {
        Some(value)
    }
}

/// The integer that `s` writes, if it lies in `lo..=hi`: an optional `+` or
/// `-`, then one or more decimal digits and nothing else.
pub open spec fn parse_int(s: Seq<char>, lo: int, hi: int) -> Option<int> {
    if s.len() > 0 && (s[0] == '-' || s[0] == '+') {
        int_of_digits(s.subrange(1, s.len() as int), s[0] == '-', lo, hi)
    } else {
        int_of_digits(s, false, lo, hi)
    }
}

/// A run of digits writes at least what any of its prefixes writes.
pub proof fn digits_value_grows(s: Seq<char>, k: int)
    requires
        all_digits(s),
        0 <= k <= s.len(),
    ensures
        digits_value(s.take(k)) <= digits_value(s),
    decreases s.len(),
{
    if k == s.len() {
        assert(s.take(k) =~= s);
    } else {
        let front = s.drop_last();
        assert(all_digits(front)) by {
            assert forall|i: int| 0 <= i < front.len() implies is_digit(#[trigger] front[i]) by {
                assert(front[i] == s[i]);
            }
        }
        digits_value_grows(front, k);
        assert(front.take(k) =~= s.take(k));
        assert(is_digit(s.last()));
    }
}

/// Reads the integer that the characters `v[from..to]` write.
pub fn parse_int_in(v: &Vec<char>, from: usize, to: usize, lo: i64, hi: i64) -> (r: Option<i64>)
    requires
        from <= to <= v@.len(),
    ensures
        parse_int(v@.subrange(from as int, to as int), lo as int, hi as int) == match r {
            Some(x) => Some(x as int),
            None => None::<int>,
        },
{
    let ghost s = v@.subrange(from as int, to as int);
    if from == to {
        return None;
    }
    let first: char = v[from];
    proof {
        assert(s[0] == first);
    }
    let negative: bool = first == '-';
    let start: usize = if first == '-' || first == '+' {
        from + 1
    } else {
        from
    };
    let ghost body = v@.subrange(start as int, to as int);
    proof {
        if start == from {
            assert(body =~= s);
        } else {
            assert(body =~= s.subrange(1, s.len() as int));
        }
    }
    proof {
        assert(parse_int(s, lo as int, hi as int) == int_of_digits(
            body,
            negative,
            lo as int,
            hi as int,
        ));
    }
    if start == to {
        return None;
    }
    let mut acc: u128 = 0;
    let mut i: usize = start;
    while i < to
        invariant
            start <= i <= to <= v@.len(),
            body == v@.subrange(start as int, to as int),
            s == v@.subrange(from as int, to as int),
            parse_int(s, lo as int, hi as int) == int_of_digits(
                body,
                negative,
                lo as int,
                hi as int,
            ),
            all_digits(body.take(i - start)),
            acc == digits_value(body.take(i - start)),
            acc <= 0x8000_0000_0000_0000,
        decreases to - i,
    {
        let c: char = v[i];
        proof {
            assert(body[i - start] == c);
        }
        if c < '0' || c > '9' {
            proof {
                assert(!is_digit(body[i - start]));
            }
            return None;
        }
        let d: u128 = (c as u32 - '0' as u32) as u128;
        let ghost before = body.take(i - start);
        let ghost after = body.take(i - start + 1);
        proof {
            assert(after.drop_last() =~= before);
            assert(after.last() == c);
            assert(all_digits(after)) by {
                assert forall|j: int| 0 <= j < after.len() implies is_digit(#[trigger] after[j]) by {
                    if j < before.len() {
                        assert(after[j] == before[j]);
                    }
                }
            }
        }
        acc = acc * 10 + d;
        i += 1;
        if acc > 0x8000_0000_0000_0000 {
            proof {
                if all_digits(body) {
                    digits_value_grows(body, i - start);
                }
            }
            return None;
        }
    }
    proof {
        assert(body.take(to - start) =~= body);
    }
    let value: i128 = if negative {
        -(acc as i128)
    } else {
        acc as i128
    };
    if value < lo as i128 || value > hi as i128 {
        None
    } else {
        Some(value as i64)
    }
}

/// The words of a text, split at white space.
pub fn split_words(text: &str) -> (r: Vec<String>)
    ensures
        texts_view(r@) == words_of(text@),
{
    let v = chars_of(text);
    let mut ended: Vec<String> = Vec::new();
    let mut running = String::new();
    let mut running_len: usize = 0;
    let mut i: usize = 0;
    while i < v.len()
        invariant
            i <= v@.len(),
            v@ == text@,
            running_len == running@.len(),
            running_len <= i,
            (texts_view(ended@), running@) == scanned(text@, i as int),
        decreases v@.len() - i,
    {
        let c: char = v[i];
        let ghost before = texts_view(ended@);
        if !c.is_whitespace() {
            running.push(c);
            running_len += 1;
        } else if running_len > 0 {
            ended.push(running);
            running = String::new();
            running_len = 0;
            proof {
                assert(texts_view(ended@) =~= before.push(scanned(text@, i as int).1));
            }
        }
        i += 1;
    }
    if running_len > 0 {
        let ghost before = texts_view(ended@);
        ended.push(running);
        proof {
            assert(texts_view(ended@) =~= before.push(scanned(text@, text@.len() as int).1));
        }
    }
    ended
}

} // verus!
