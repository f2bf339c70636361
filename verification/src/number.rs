//! Integers as decimal text, in both directions.
use crate::text::push_char;
use vstd::prelude::*;

verus! {

/// The character of a decimal digit.
pub open spec fn digit(d: int) -> char {
    ((48 + d) as u8) as char
}

/// Whether a character is one of `0` to `9`.
pub open spec fn is_digit(c: char) -> bool {
    48 <= c as u32 <= 57
}

/// The digit that a character between `0` and `9` stands for.
pub open spec fn digit_value(c: char) -> int {
    c as u32 - 48
}

/// The decimal digits of a natural number, without leading zeros.
pub open spec fn nat_text(n: nat) -> Seq<char>
    decreases n,
{
    if n < 10 {
        seq![digit(n as int)]
    } else {
        nat_text(n / 10).push(digit((n % 10) as int))
    }
}

/// The decimal text of an integer: a minus sign in front of a negative one.
pub open spec fn int_text(i: int) -> Seq<char> {
    if i < 0 {
        seq!['-'] + nat_text((-i) as nat)
    } else {
        nat_text(i as nat)
    }
}

/// The number that a sequence of digits spells; the empty sequence spells 0.
pub open spec fn digits_value(s: Seq<char>) -> nat
    decreases s.len(),
{
    if s.len() == 0 {
        0
    } else {
        (digits_value(s.drop_last()) * 10 + digit_value(s.last())) as nat
    }
}

/// Whether every character is a digit.
pub open spec fn all_digits(s: Seq<char>) -> bool {
    forall|i: int| 0 <= i < s.len() ==> is_digit(#[trigger] s[i])
}

/// A longer sequence of digits spells no smaller number than its beginning.
pub proof fn lemma_digits_value_grows(s: Seq<char>, k: int)
    requires
        all_digits(s),
        0 <= k <= s.len(),
    ensures
        digits_value(s.subrange(0, k)) <= digits_value(s),
    decreases s.len() - k,
{
    if k == s.len() {
        assert(s.subrange(0, k) == s);
    } else {
        lemma_digits_value_grows(s, k + 1);
        let longer = s.subrange(0, k + 1);
        assert(longer.drop_last() == s.subrange(0, k));
        assert(is_digit(s[k]));
        assert(longer.last() == s[k]);
        assert(digits_value(longer) == digits_value(s.subrange(0, k)) * 10 + digit_value(s[k]));
    }
}

/// Whether a character is one of `0` to `9`.
pub fn char_is_digit(c: char) -> (r: bool)
    ensures
        r == is_digit(c),
{
    let u: u32 = c as u32;
    48 <= u && u <= 57
}

/// The decimal text of `i`.
pub fn render_int(i: i64) -> (s: String)
    ensures
        s@ == int_text(i as int),
{
    let mut m: u64 = if i < 0 {
        ((-(i + 1)) as u64) + 1
    } else {
        i as u64
    };
    let ghost m0 = m;
    let mut low: Vec<char> = Vec::new();
    while m >= 10
        invariant
            nat_text(m0 as nat) == nat_text(m as nat) + low@.reverse(),
        decreases m,
    {
        let d: u8 = (m % 10) as u8;
        let ghost before = low@;
        let ghost m_before = m;
        low.push((48u8 + d) as char);
        m = m / 10;
        proof {
            assert(low@.reverse() == seq![digit(d as int)] + before.reverse());
            assert(nat_text(m_before as nat) == nat_text(m as nat).push(digit(d as int)));
            assert(nat_text(m as nat).push(digit(d as int)) + before.reverse() == nat_text(
                m as nat,
            ) + low@.reverse());
        }
    }
    let mut s = String::new();
    if i < 0 {
        push_char(&mut s, '-');
    }
    let ghost sign = s@;
    push_char(&mut s, (48u8 + (m as u8)) as char);
    let mut k: usize = low.len();
    while k > 0
        invariant
            k <= low.len(),
            s@ == sign + nat_text(m as nat) + low@.reverse().subrange(0, low.len() - k),
        decreases k,
    {
        k -= 1;
        push_char(&mut s, low[k]);
        proof {
            let r = low@.reverse();
            let n = low.len() as int;
            assert(r[n - k - 1] == low@[k as int]);
            assert(r.subrange(0, n - k) == r.subrange(0, n - k - 1).push(r[n - k - 1]));
        }
    }
    proof {
        let r = low@.reverse();
        assert(r.subrange(0, low.len() as int) == r);
        assert(sign + nat_text(m as nat) + r == sign + (nat_text(m as nat) + r));
        if i < 0 {
            assert(sign == seq!['-']);
        } else {
            assert(sign + nat_text(m0 as nat) == nat_text(m0 as nat));
        }
    }
    s
}

/// The 64-bit signed integer that the digits `chars[from..to]` spell, if it
/// is small enough to be one.
pub(crate) fn parse_digits(chars: &Vec<char>, from: usize, to: usize) -> (r: Option<i64>)
    requires
        from <= to <= chars.len(),
        all_digits(chars@.subrange(from as int, to as int)),
    ensures
        match r {
            Some(v) => v == digits_value(chars@.subrange(from as int, to as int)),
            None => digits_value(chars@.subrange(from as int, to as int)) > i64::MAX,
        },
{
    let ghost s = chars@.subrange(from as int, to as int);
    let mut acc: u64 = 0;
    let mut i: usize = from;
    while i < to
        invariant
            from <= i <= to <= chars.len(),
            s == chars@.subrange(from as int, to as int),
            all_digits(s),
            acc == digits_value(s.subrange(0, i - from)),
            acc <= i64::MAX,
        decreases to - i,
    {
        let c = chars[i];
        let ghost longer = s.subrange(0, i - from + 1);
        proof {
            assert(s[i - from] == c);
            assert(is_digit(s[i - from]));
            assert(longer.drop_last() == s.subrange(0, i - from));
            assert(longer.last() == c);
            assert(digits_value(longer) == acc * 10 + digit_value(c));
        }
        let d: u64 = (c as u32 - 48) as u64;
        if acc > (i64::MAX as u64 - d) / 10 {
            proof {
                lemma_digits_value_grows(s, i - from + 1);
            }
            return None;
        }
        acc = acc * 10 + d;
        i += 1;
    }
    assert(s.subrange(0, to - from) == s);
    Some(acc as i64)
}

} // verus!
