//! Decimal numerals: how an unsigned count is rendered into a string and how a
//! header value is read back as one.
use vstd::prelude::*;
use vstd::string::*;

verus! {

/// The character standing for a single decimal digit.
pub open spec fn digit_char(d: int) -> char {
    if d == 0 {
        '0'
    } else if d == 1 {
        '1'
    } else if d == 2 {
        '2'
    } else if d == 3 {
        '3'
    } else if d == 4 {
        '4'
    } else if d == 5 {
        '5'
    } else if d == 6 {
        '6'
    } else if d == 7 {
        '7'
    } else if d == 8 {
        '8'
    } else {
        '9'
    }
}

/// The usual decimal rendering of `n`, most significant digit first, with no
/// leading zeros (and `0` itself rendered as "0").
pub open spec fn decimal_rep(n: nat) -> Seq<char>
    decreases n,
{
    if n < 10 {
        seq![digit_char(n as int)]
    } else {
        decimal_rep(n / 10) + seq![digit_char((n % 10) as int)]
    }
}

/// Whether `c` is one of the characters '0' through '9'.
pub open spec fn is_digit(c: char) -> bool {
    48 <= c as u32 && c as u32 <= 57
}

/// The numeric value of a digit character.
pub open spec fn digit_val(c: char) -> nat {
    (c as u32 - 48) as nat
}

/// Whether every character of `s` is a decimal digit.
pub open spec fn all_digits(s: Seq<char>) -> bool {
    forall|i: int| 0 <= i < s.len() ==> is_digit(#[trigger] s[i])
}

/// The number a digit string denotes, read most significant digit first.
pub open spec fn dec_val(s: Seq<char>) -> nat
    decreases s.len(),
{
    if s.len() == 0 {
        0
    } else {
        dec_val(s.drop_last()) * 10 + digit_val(s.last())
    }
}

/// The denoted value never shrinks as a digit string is extended to the right.
proof fn lemma_dec_val_take_mono(s: Seq<char>, i: int)
    requires
        0 <= i <= s.len(),
    ensures
        dec_val(s.take(i)) <= dec_val(s),
    decreases s.len() - i,
{
    if i < s.len() {
        assert(s.take(i + 1).drop_last() =~= s.take(i));
        assert(dec_val(s.take(i)) <= dec_val(s.take(i + 1)));
        lemma_dec_val_take_mono(s, i + 1);
        assert(s.take(s.len() as int) =~= s);
    } else {
        assert(s.take(i) =~= s);
    }
}

proof fn lemma_digit_char_val(d: int)
    requires
        0 <= d < 10,
    ensures
        is_digit(digit_char(d)),
        digit_val(digit_char(d)) == d,
{
}

/// A rendered count is a non-empty digit string and reads back as itself.
pub proof fn lemma_decimal_rep_value(n: nat)
    ensures
        decimal_rep(n).len() > 0,
        all_digits(decimal_rep(n)),
        dec_val(decimal_rep(n)) == n,
    decreases n,
{
    if n < 10 {
        let s = seq![digit_char(n as int)];
        lemma_digit_char_val(n as int);
        assert(s.drop_last() =~= Seq::<char>::empty());
        assert(s.last() == digit_char(n as int));
        assert(dec_val(s.drop_last()) == 0);
        assert(dec_val(s) == digit_val(digit_char(n as int)));
    } else {
        lemma_decimal_rep_value(n / 10);
        lemma_digit_char_val((n % 10) as int);
        let s = decimal_rep(n / 10);
        let c = digit_char((n % 10) as int);
        assert((s + seq![c]).drop_last() =~= s);
        assert((s + seq![c]).last() == c);
        assert(dec_val(s + seq![c]) == dec_val(s) * 10 + digit_val(c));
        assert forall|i: int| 0 <= i < (s + seq![c]).len() implies is_digit(
            #[trigger] (s + seq![c])[i],
        ) by {
            if i < s.len() {
                assert((s + seq![c])[i] == s[i]);
            } else {
                assert((s + seq![c])[i] == c);
            }
        }
    }
}

/// The one-character string holding the digit `d`.
fn digit_str(d: usize) -> (r: &'static str)
    requires
        d < 10,
    ensures
        r@ == seq![digit_char(d as int)],
{
    proof {
        reveal_strlit("0");
        reveal_strlit("1");
        reveal_strlit("2");
        reveal_strlit("3");
        reveal_strlit("4");
        reveal_strlit("5");
        reveal_strlit("6");
        reveal_strlit("7");
        reveal_strlit("8");
        reveal_strlit("9");
    }
    let r = match d {
        0 => "0",
        1 => "1",
        2 => "2",
        3 => "3",
        4 => "4",
        5 => "5",
        6 => "6",
        7 => "7",
        8 => "8",
        _ => "9",
    };
    proof {
        assert(r@ =~= seq![digit_char(d as int)]);
    }
    r
}

/// Renders `n` in decimal, as `decimal_rep` describes.
pub fn usize_to_string(n: usize) -> (r: String)
    ensures
        r@ == decimal_rep(n as nat),
    decreases n,
{
    if n < 10 {
        String::from_str(digit_str(n))
    } else {
        let prefix = usize_to_string(n / 10);
        let r = prefix.concat(digit_str(n % 10));
        proof {
            assert(r@ =~= decimal_rep(n as nat));
        }
        r
    }
}

/// The digits a count header carries: what follows an optional leading plus
/// sign.
pub open spec fn digits_of(s: Seq<char>) -> Seq<char> {
    if s.len() > 0 && s[0] == '+' {
        s.skip(1)
    } else {
        s
    }
}

/// Reads a header value as an unsigned count, the way the standard unsigned
/// parser does: an optional leading plus sign, then decimal digits. Succeeds
/// exactly when the digits are non-empty, all decimal, and denote a value
/// that fits in `usize`; the result is that value.
pub fn parse_usize(s: &str) -> (r: Option<usize>)
    ensures
        ({
            let t = digits_of(s@);
            match r {
                Some(v) => t.len() > 0 && all_digits(t) && v as nat == dec_val(t),
                None => t.len() == 0 || !all_digits(t) || dec_val(t) > usize::MAX,
            }
        }),
{
    let ghost t = digits_of(s@);
    let n = s.unicode_len();
    let mut start: usize = 0;
    if n > 0 && s.get_char(0) == '+' {
        start = 1;
    }
    proof {
        assert(s@.skip(0) =~= s@);
        assert(t =~= s@.skip(start as int));
    }
    if start >= n {
        return None;
    }
    let mut v: usize = 0;
    let mut i: usize = start;
    while i < n
        invariant
            start <= i <= n,
            n == s@.len(),
            t == s@.skip(start as int),
            t == digits_of(s@),
            all_digits(t.take(i - start)),
            v as nat == dec_val(t.take(i - start)),
        decreases n - i,
    {
        let c = s.get_char(i);
        proof {
            assert(t[i - start] == s@[i as int]);
        }
        let cv = c as u32;
        if cv < 48 || cv > 57 {
            proof {
                assert(!is_digit(t[i - start]));
            }
            return None;
        }
        let d = (cv - 48) as usize;
        proof {
            assert(t.take(i - start + 1).drop_last() =~= t.take(i - start));
            assert(t.take(i - start + 1).last() == t[i - start]);
            assert(dec_val(t.take(i - start + 1)) == v as nat * 10 + d as nat);
        }
        let next = match v.checked_mul(10) {
            Some(v10) => v10.checked_add(d),
            None => None,
        };
        match next {
            Some(v2) => {
                v = v2;
            },
            None => {
                proof {
                    if all_digits(t) {
                        lemma_dec_val_take_mono(t, i - start + 1);
                    }
                }
                return None;
            },
        }
        proof {
            assert forall|j: int| 0 <= j < i - start + 1 implies is_digit(
                #[trigger] t.take(i - start + 1)[j],
            ) by {
                if j < i - start {
                    assert(is_digit(t.take(i - start)[j]));
                }
            }
        }
        i = i + 1;
    }
    proof {
        assert(t.take(n - start) =~= t);
    }
    Some(v)
}

} // verus!
