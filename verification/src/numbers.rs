use vstd::prelude::*;

verus! {

/// The character standing for one decimal digit value (0 through 9).
pub open spec fn digit_char(d: int) -> char {
    if d == 0 {
        '0'
    } else if d == 1 {
        '1'
    } else if d == 2 {
        '2'
    } else if d == 3 {
        '3'
    } else if d == 4 {
        '4'
    } else if d == 5 {
        '5'
    } else if d == 6 {
        '6'
    } else if d == 7 {
        '7'
    } else if d == 8 {
        '8'
    } else {
        '9'
    }
}

pub open spec fn is_digit(c: char) -> bool {
    c == '0' || c == '1' || c == '2' || c == '3' || c == '4' || c == '5' || c == '6' || c == '7'
        || c == '8' || c == '9'
}

/// The value of one decimal digit character; any non-digit counts as 9 so
/// that the result always lies between 0 and 9.
pub open spec fn digit_of(c: char) -> int {
    if c == '0' {
        0
    } else if c == '1' {
        1
    } else if c == '2' {
        2
    } else if c == '3' {
        3
    } else if c == '4' {
        4
    } else if c == '5' {
        5
    } else if c == '6' {
        6
    } else if c == '7' {
        7
    } else if c == '8' {
        8
    } else {
        9
    }
}

pub open spec fn all_digits(s: Seq<char>) -> bool {
    forall|i: int| 0 <= i < s.len() ==> is_digit(#[trigger] s[i])
}

/// Numeric value of a sequence of decimal digit characters, most significant
/// digit first.
pub open spec fn dec_value(s: Seq<char>) -> int
    decreases s.len(),
{
    if s.len() == 0 {
        0
    } else {
        dec_value(s.drop_last()) * 10 + digit_of(s.last())
    }
}

/// The canonical decimal representation of a natural number: no sign, no
/// leading zeros (except for zero itself).
pub open spec fn dec_of(n: nat) -> Seq<char>
    decreases n,
{
    if n < 10 {
        seq![digit_char(n as int)]
    } else {
        dec_of(n / 10).push(digit_char((n % 10) as int))
    }
}

/// What `parse_u64` returns: an optional leading `+`, then at least one
/// decimal digit, and the value must fit in a `u64`.
pub open spec fn dec_str_to_u64(s: Seq<char>) -> Option<u64> {
    let digits = if s.len() > 0 && s[0] == '+' {
        s.skip(1)
    } else {
        s
    };
    if digits.len() > 0 && all_digits(digits) && dec_value(digits) <= u64::MAX {
        Some(dec_value(digits) as u64)
    } else {
        None
    }
}

pub proof fn lemma_dec_value_nonneg(s: Seq<char>)
    ensures
        dec_value(s) >= 0,
    decreases s.len(),
{
    if s.len() > 0 {
        lemma_dec_value_nonneg(s.drop_last());
    }
}

/// Reading one more digit multiplies the value so far by ten and adds it.
pub proof fn lemma_dec_value_step(s: Seq<char>, i: int)
    requires
        0 <= i < s.len(),
    ensures
        dec_value(s.take(i + 1)) == dec_value(s.take(i)) * 10 + digit_of(s[i]),
{
    assert(s.take(i + 1).drop_last() =~= s.take(i));
    assert(s.take(i + 1).last() == s[i]);
}

/// A prefix of a digit string never has a larger value than the whole.
pub proof fn lemma_dec_value_prefix_le(s: Seq<char>, i: int)
    requires
        0 <= i <= s.len(),
    ensures
        dec_value(s.take(i)) <= dec_value(s),
    decreases s.len() - i,
{
    if i == s.len() {
        assert(s.take(i) =~= s);
    } else {
        lemma_dec_value_step(s, i);
        lemma_dec_value_nonneg(s.take(i));
        lemma_dec_value_prefix_le(s, i + 1);
    }
}

fn digit_to_char(d: u64) -> (c: char)
    requires
        d < 10,
    ensures
        c == digit_char(d as int),
{
    match d {
        0 => '0',
        1 => '1',
        2 => '2',
        3 => '3',
        4 => '4',
        5 => '5',
        6 => '6',
        7 => '7',
        8 => '8',
        _ => '9',
    }
}

fn char_to_digit(c: char) -> (r: Option<u64>)
    ensures
        match r {
            Some(d) => is_digit(c) && d == digit_of(c),
            None => !is_digit(c),
        },
{
    match c {
        '0' => Some(0),
        '1' => Some(1),
        '2' => Some(2),
        '3' => Some(3),
        '4' => Some(4),
        '5' => Some(5),
        '6' => Some(6),
        '7' => Some(7),
        '8' => Some(8),
        '9' => Some(9),
        _ => None,
    }
}

proof fn lemma_reverse_push(s: Seq<char>, x: char)
    ensures
        s.push(x).reverse() =~= seq![x] + s.reverse(),
{
}

/// Renders a number in decimal, the way `u64`'s standard formatting does.
pub fn u64_to_dec(n: u64) -> (s: String)
    ensures
        s@ == dec_of(n as nat),
{
    let mut rev: Vec<char> = Vec::new();
    let mut m: u64 = n;
    proof {
        assert(rev@.reverse() =~= Seq::<char>::empty());
        assert(dec_of(n as nat) + rev@.reverse() =~= dec_of(n as nat));
    }
    loop
        invariant_except_break
            dec_of(n as nat) == dec_of(m as nat) + rev@.reverse(),
        ensures
            dec_of(n as nat) == rev@.reverse(),
        decreases m,
    {
        let ghost old_rev = rev@;
        let ghost old_m = m as nat;
        let d = m % 10;
        let c = digit_to_char(d);
        proof {
            lemma_reverse_push(old_rev, c);
        }
        rev.push(c);
        m = m / 10;
        proof {
            assert(rev@ == old_rev.push(c));
            if old_m >= 10 {
                assert(dec_of(old_m) == dec_of(old_m / 10).push(c));
                assert(m as nat == old_m / 10);
                assert(dec_of(m as nat) + rev@.reverse() =~= dec_of(m as nat).push(c)
                    + old_rev.reverse());
            } else {
                assert(dec_of(old_m) == seq![c]);
                assert(rev@.reverse() =~= dec_of(old_m) + old_rev.reverse());
            }
        }
        if m == 0 {
            break;
        }
    }
    let ghost target = rev@.reverse();
    let mut out = String::new();
    let mut i: usize = 0;
    while i < rev.len()
        invariant
            target == rev@.reverse(),
            i <= rev@.len(),
            out@ =~= target.take(i as int),
        decreases rev@.len() - i,
    {
        let c = rev[rev.len() - 1 - i];
        proof {
            assert(target[i as int] == rev@[rev@.len() - 1 - i]);
            assert(target.take(i + 1) =~= target.take(i as int).push(target[i as int]));
        }
        crate::text::push_char(&mut out, c);
        i = i + 1;
    }
    proof {
        assert(target.take(rev@.len() as int) =~= target);
    }
    out
}

/// Parses a decimal number the way `str::parse::<u64>` does, except that no
/// leading `-` is ever accepted: `None` exactly on malformed or too large
/// input.
pub fn parse_u64(s: &str) -> (r: Option<u64>)
    ensures
        r == dec_str_to_u64(s@),
{
    let len = s.unicode_len();
    let start: usize = if len > 0 && s.get_char(0) == '+' {
        1
    } else {
        0
    };
    let ghost digits = if s@.len() > 0 && s@[0] == '+' {
        s@.skip(1)
    } else {
        s@
    };
    proof {
        assert(digits.len() == len - start);
        assert(forall|k: int| 0 <= k < digits.len() ==> digits[k] == s@[k + start]);
    }
    if start == len {
        return None;
    }
    let mut acc: u64 = 0;
    let mut i: usize = start;
    while i < len
        invariant
            start <= i <= len,
            len == s@.len(),
            start == if s@.len() > 0 && s@[0] == '+' {
                1int
            } else {
                0int
            },
            digits == if s@.len() > 0 && s@[0] == '+' {
                s@.skip(1)
            } else {
                s@
            },
            digits.len() == len - start,
            forall|k: int| 0 <= k < digits.len() ==> digits[k] == s@[k + start],
            forall|k: int| 0 <= k < i - start ==> is_digit(#[trigger] digits[k]),
            acc == dec_value(digits.take(i - start)),
        decreases len - i,
    {
        let c = s.get_char(i);
        proof {
            lemma_dec_value_step(digits, i - start);
        }
        match char_to_digit(c) {
            None => {
                proof {
                    assert(digits[i - start] == s@[i as int]);
                    assert(!is_digit(digits[i - start]));
                    assert(!all_digits(digits));
                }
                return None;
            },
            Some(d) => {
                let next = match acc.checked_mul(10) {
                    Some(t) => t.checked_add(d),
                    None => None,
                };
                match next {
                    Some(v) => {
                        acc = v;
                    },
                    None => {
                        proof {
                            assert(digits[i - start] == s@[i as int]);
                            assert(digit_of(digits[i - start]) == d);
                            assert(dec_value(digits.take(i - start + 1)) > u64::MAX);
                            lemma_dec_value_prefix_le(digits, i - start + 1);
                            assert(dec_value(digits) > u64::MAX);
                        }
                        return None;
                    },
                }
            },
        }
        i = i + 1;
    }
    proof {
        assert(digits.take(len - start) =~= digits);
    }
    Some(acc)
}

} // verus!
