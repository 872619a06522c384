//! Decimal numerals: rendering history line numbers, and parsing the
//! numeric arguments of `history N` and `exit N`.
use vstd::prelude::*;

verus! {

/// The digit character for `d < 10`.
pub open spec fn digit_char(d: nat) -> char {
    if d == 0 {
        '0'
    } else if d == 1 {
        '1'
    } else if d == 2 {
        '2'
    } else if d == 3 {
        '3'
    } else if d == 4 {
        '4'
    } else if d == 5 {
        '5'
    } else if d == 6 {
        '6'
    } else if d == 7 {
        '7'
    } else if d == 8 {
        '8'
    } else {
        '9'
    }
}

/// The decimal numeral of `n`, most significant digit first.
pub open spec fn spec_decimal(n: nat) -> Seq<char>
    decreases n,
{
    if n < 10 {
        seq![digit_char(n)]
    } else {
        spec_decimal(n / 10).push(digit_char(n % 10))
    }
}

fn digit(d: u64) -> (c: char)
    requires
        d < 10,
    ensures
        c == digit_char(d as nat),
{
    if d == 0 {
        '0'
    } else if d == 1 {
        '1'
    } else if d == 2 {
        '2'
    } else if d == 3 {
        '3'
    } else if d == 4 {
        '4'
    } else if d == 5 {
        '5'
    } else if d == 6 {
        '6'
    } else if d == 7 {
        '7'
    } else if d == 8 {
        '8'
    } else {
        '9'
    }
}

/// Append the decimal numeral of `n` to `out`.
pub fn push_decimal(n: u64, out: &mut Vec<char>)
    ensures
        final(out)@ == old(out)@ + spec_decimal(n as nat),
    decreases n,
{
    if n < 10 {
        out.push(digit(n));
        proof {
            assert(out@ =~= old(out)@ + spec_decimal(n as nat));
        }
    } else {
        push_decimal(n / 10, out);
        out.push(digit(n % 10));
        proof {
            assert(out@ =~= old(out)@ + spec_decimal(n as nat));
        }
    }
}

/// Whether `c` is a decimal digit.
pub open spec fn is_digit(c: char) -> bool {
    48 <= c as u32 <= 57
}

/// The numeric value of a digit character.
pub open spec fn digit_val(c: char) -> nat {
    (c as u32 - 48) as nat
}

/// Whether every character of `t` is a decimal digit.
pub open spec fn all_digits(t: Seq<char>) -> bool {
    forall|j: int| 0 <= j < t.len() ==> is_digit(#[trigger] t[j])
}

/// The value of a digit string, most significant digit first.
pub open spec fn digits_val(t: Seq<char>) -> nat
    decreases t.len(),
{
    if t.len() == 0 {
        0
    } else {
        digits_val(t.drop_last()) * 10 + digit_val(t.last())
    }
}

/// A longer digit string never has a smaller value.
proof fn lemma_digits_val_prefix_le(t: Seq<char>, k: int)
    requires
        0 <= k <= t.len(),
    ensures
        digits_val(t.subrange(0, k)) <= digits_val(t),
    decreases t.len() - k,
{
    if k == t.len() {
        assert(t.subrange(0, k) =~= t);
    } else {
        lemma_digits_val_prefix_le(t, k + 1);
        assert(t.subrange(0, k + 1).drop_last() =~= t.subrange(0, k));
        assert(digits_val(t.subrange(0, k + 1)) == digits_val(t.subrange(0, k)) * 10 + digit_val(
            t.subrange(0, k + 1).last(),
        ));
    }
}

/// Parse the digit characters of `cs` from position `from` on, refusing a
/// value above `limit`, an empty string, and any non-digit.
fn parse_digits(cs: &Vec<char>, from: usize, limit: u64) -> (r: Option<u64>)
    requires
        from <= cs@.len(),
    ensures
        (match r {
            Some(v) => {
                let t = cs@.subrange(from as int, cs@.len() as int);
                t.len() > 0 && all_digits(t) && digits_val(t) == v as nat && v <= limit
            },
            None => {
                let t = cs@.subrange(from as int, cs@.len() as int);
                t.len() == 0 || !all_digits(t) || digits_val(t) > limit as nat
            },
        }),
{
    let ghost t = cs@.subrange(from as int, cs@.len() as int);
    let n = cs.len();
    if from == n {
        return None;
    }
    let mut acc: u64 = 0;
    let mut i: usize = from;
    while i < n
        invariant
            t == cs@.subrange(from as int, cs@.len() as int),
            n == cs@.len(),
            from <= i <= n,
            all_digits(t.subrange(0, i - from)),
            acc as nat == digits_val(t.subrange(0, i - from)),
            acc <= limit,
        decreases n - i,
    {
        let c = cs[i];
        let cv = c as u32;
        proof {
            assert(t[i - from] == cs@[i as int]);
        }
        if cv < 48 || cv > 57 {
            proof {
                assert(!is_digit(t[i - from]));
            }
            return None;
        }
        let d = (cv - 48) as u64;
        proof {
            assert(t.subrange(0, i - from + 1).drop_last() =~= t.subrange(0, i - from));
            assert(t.subrange(0, i - from + 1).last() == t[i - from]);
        }
        if acc > limit / 10 || (acc == limit / 10 && d > limit % 10) {
            proof {
                assert(digits_val(t.subrange(0, i - from + 1)) > limit as nat);
                lemma_digits_val_prefix_le(t, i - from + 1);
            }
            return None;
        }
        acc = acc * 10 + d;
        i += 1;
        proof {
            assert(all_digits(t.subrange(0, i - from)));
        }
    }
    proof {
        assert(t.subrange(0, n - from) =~= t);
    }
    Some(acc)
}

/// The count `history N` denotes: a plain digit string that fits, or
/// nothing.
pub open spec fn spec_count(t: Seq<char>) -> Option<nat> {
    if t.len() > 0 && all_digits(t) && digits_val(t) <= usize::MAX as nat {
        Some(digits_val(t))
    } else {
        None
    }
}

/// Parse the argument of `history N`.
pub fn parse_count(s: &str) -> (r: Option<usize>)
    ensures
        (match r {
            Some(v) => spec_count(s@) == Some(v as nat),
            None => spec_count(s@) is None,
        }),
{
    let cs = crate::chars::str_chars(s);
    proof {
        assert(cs@.subrange(0, cs@.len() as int) =~= s@);
    }
    match parse_digits(&cs, 0, usize::MAX as u64) {
        Some(v) => Some(v as usize),
        None => None,
    }
}

/// The status `exit N` denotes: an optionally signed decimal that fits in
/// a 32-bit signed status, anything else meaning status zero.
pub open spec fn spec_exit_code(t: Seq<char>) -> int {
    if t.len() > 0 && t[0] == '-' {
        let ds = t.drop_first();
        if ds.len() > 0 && all_digits(ds) && digits_val(ds) <= 0x8000_0000 {
            -(digits_val(ds) as int)
        } else {
            0
        }
    } else {
        let ds = if t.len() > 0 && t[0] == '+' {
            t.drop_first()
        } else {
            t
        };
        if ds.len() > 0 && all_digits(ds) && digits_val(ds) <= 0x7fff_ffff {
            digits_val(ds) as int
        } else {
            0
        }
    }
}

/// Parse the argument of `exit N`: a non-numeric or out-of-range argument
/// yields status zero.
pub fn parse_exit_code(s: &str) -> (r: i32)
    ensures
        r as int == spec_exit_code(s@),
{
    let cs = crate::chars::str_chars(s);
    let n = cs.len();
    if n == 0 {
        return 0;
    }
    let first = cs[0];
    if first == '-' {
        proof {
            assert(cs@.subrange(1, n as int) =~= s@.drop_first());
        }
        match parse_digits(&cs, 1, 0x8000_0000u64) {
            Some(v) => (-(v as i64)) as i32,
            None => 0,
        }
    } else if first == '+' {
        proof {
            assert(cs@.subrange(1, n as int) =~= s@.drop_first());
        }
        match parse_digits(&cs, 1, 0x7fff_ffffu64) {
            Some(v) => v as i32,
            None => 0,
        }
    } else {
        proof {
            assert(cs@.subrange(0, n as int) =~= s@);
        }
        match parse_digits(&cs, 0, 0x7fff_ffffu64) {
            Some(v) => v as i32,
            None => 0,
        }
    }
}

} // verus!
