//! Decimal numbers as text: parsing an unsigned integer and printing one,
//! and zero padding of a value to a minimum width.
use vstd::prelude::*;

verus! {

/// Relies on `String::push`: it appends one character.
pub assume_specification[ String::push ](s: &mut String, ch: char)
    ensures
        final(s)@ == old(s)@.push(ch),
;

pub open spec fn is_digit(c: char) -> bool {
    '0' <= c && c <= '9'
}

pub open spec fn digit_value(c: char) -> nat {
    (c as u32 - '0' as u32) as nat
}

pub open spec fn digit_char(d: nat) -> char {
    ((d + '0' as u32) as u32) as char
}

/// A non-empty run of ASCII decimal digits: no sign, no space.
pub open spec fn is_digits(s: Seq<char>) -> bool {
    s.len() > 0 && forall|i: int| 0 <= i < s.len() ==> is_digit(#[trigger] s[i])
}

/// The number that a run of digits denotes.
pub open spec fn digits_value(s: Seq<char>) -> nat
    decreases s.len(),
{
    if s.len() == 0 {
        0
    } else {
        digits_value(s.drop_last()) * 10 + digit_value(s.last())
    }
}

/// What a text parses to as an unsigned machine integer.
pub open spec fn parse_unsigned(s: Seq<char>) -> Option<usize> {
    if is_digits(s) && digits_value(s) <= usize::MAX {
        Some(digits_value(s) as usize)
    } else {
        None
    }
}

/// The canonical decimal digits of a number, without leading zeros.
pub open spec fn decimal(n: nat) -> Seq<char>
    decreases n,
{
    if n < 10 {
        seq![digit_char(n)]
    } else {
        decimal(n / 10).push(digit_char(n % 10))
    }
}

pub open spec fn zeros(k: nat) -> Seq<char> {
    Seq::new(k, |i: int| '0')
}

/// A value padded to `width`: where it is a run of digits, as many zeros as
/// are missing to reach `width` put before it; otherwise the value itself.
pub open spec fn padded(value: Seq<char>, width: nat) -> Seq<char> {
    if is_digits(value) && value.len() < width {
        zeros((width - value.len()) as nat) + value
    } else {
        value
    }
}

/// A reference or width token read as an unsigned integer: a run of digits,
/// optionally behind one `+`.
pub open spec fn parse_token(s: Seq<char>) -> Option<usize> {
    if s.len() > 0 && s[0] == '+' {
        parse_unsigned(s.drop_first())
    } else {
        parse_unsigned(s)
    }
}

proof fn lemma_digits_value_prefix_monotone(s: Seq<char>, i: int)
    requires
        0 <= i <= s.len(),
    ensures
        digits_value(s.subrange(0, i)) <= digits_value(s),
    decreases s.len() - i,
{
    if i < s.len() {
        lemma_digits_value_prefix_monotone(s, i + 1);
        let p = s.subrange(0, i + 1);
        assert(p.drop_last() =~= s.subrange(0, i));
    } else {
        assert(s.subrange(0, i) =~= s);
    }
}

/// Parses a run of ASCII digits into a `usize`; `None` for anything else and
/// for numbers that do not fit.
pub fn parse_unsigned_str(s: &str) -> (r: Option<usize>)
    ensures
        r == parse_unsigned(s@),
{
    let n = s.unicode_len();
    if n == 0 {
        return None;
    }
    let mut acc: usize = 0;
    let mut i: usize = 0;
    while i < n
        invariant
            n == s@.len(),
            0 <= i <= n,
            forall|j: int| 0 <= j < i ==> is_digit(#[trigger] s@[j]),
            acc as nat == digits_value(s@.subrange(0, i as int)),
        decreases n - i,
    {
        let c = s.get_char(i);
        if c < '0' || c > '9' {
            return None;
        }
        let d = (c as u32 - '0' as u32) as usize;
        assert(s@.subrange(0, i + 1).drop_last() =~= s@.subrange(0, i as int));
        match acc.checked_mul(10) {
            Some(m) => match m.checked_add(d) {
                Some(v) => {
                    acc = v;
                },
                None => {
                    proof {
                        lemma_digits_value_prefix_monotone(s@, i + 1);
                    }
                    return None;
                },
            },
            None => {
                proof {
                    lemma_digits_value_prefix_monotone(s@, i + 1);
                }
                return None;
            },
        }
        i = i + 1;
    }
    assert(s@.subrange(0, n as int) =~= s@);
    Some(acc)
}

/// The decimal digits of `n`.
pub fn decimal_string(n: usize) -> (r: String)
    ensures
        r@ == decimal(n as nat),
    decreases n,
{
    let d = ((n % 10) as u32 + '0' as u32) as u8 as char;
    if n < 10 {
        let mut s = String::new();
        s.push(d);
        s
    } else {
        let mut s = decimal_string(n / 10);
        s.push(d);
        s
    }
}

/// Whether a text is a non-empty run of ASCII digits.
pub fn all_digits(s: &str) -> (r: bool)
    ensures
        r == is_digits(s@),
{
    let n = s.unicode_len();
    if n == 0 {
        return false;
    }
    let mut i: usize = 0;
    while i < n
        invariant
            n == s@.len(),
            i <= n,
            forall|j: int| 0 <= j < i ==> is_digit(#[trigger] s@[j]),
        decreases n - i,
    {
        let c = s.get_char(i);
        if c < '0' || c > '9' {
            assert(!is_digit(s@[i as int]));
            return false;
        }
        i = i + 1;
    }
    true
}

/// Reads a token as `parse_token` says.
pub fn parse_token_str(s: &str) -> (r: Option<usize>)
    ensures
        r == parse_token(s@),
{
    let n = s.unicode_len();
    if n > 0 && s.get_char(0) == '+' {
        let rest = s.substring_char(1, n);
        assert(rest@ =~= s@.drop_first());
        parse_unsigned_str(rest)
    } else {
        parse_unsigned_str(s)
    }
}

/// Pads `value` to `width` as `padded` says.
pub fn pad_value(value: &str, width: usize) -> (r: String)
    ensures
        r@ == padded(value@, width as nat),
{
    let len = value.unicode_len();
    if all_digits(value) && len < width {
        let mut out = String::new();
        let mut k: usize = 0;
        while k < width - len
            invariant
                k <= width - len,
                out@ == zeros(k as nat),
            decreases width - len - k,
        {
            out.push('0');
            k = k + 1;
            assert(out@ =~= zeros(k as nat));
        }
        out.append(value);
        out
    } else {
        value.to_owned()
    }
}

/// Padding never truncates: the result is at least `width` long and at
/// least as long as the value, and it ends with the value.
pub proof fn lemma_pad_never_truncates(value: Seq<char>, width: nat)
    ensures
        ({
            let r = padded(value, width);
            &&& r.len() >= value.len()
            &&& is_digits(value) ==> r.len() >= width
            &&& r.subrange(r.len() - value.len(), r.len() as int) == value
        }),
{
    let r = padded(value, width);
    assert(r.subrange(r.len() - value.len(), r.len() as int) =~= value);
}

/// A value whose length already meets the width comes out of padding
/// unchanged.
pub proof fn lemma_pad_keeps_wide_values(value: Seq<char>, width: nat)
    requires
        value.len() >= width,
    ensures
        padded(value, width) == value,
{
}

/// Padding is idempotent: padding an already padded value to the same width
/// changes nothing.
pub proof fn lemma_pad_idempotent(value: Seq<char>, width: nat)
    ensures
        padded(padded(value, width), width) == padded(value, width),
{
    let once = padded(value, width);
    if is_digits(value) && value.len() < width {
        assert(once.len() == width);
    }
}

} // verus!
