//! Verified parsing of the decimal tokens carried by search-info lines.

use vstd::prelude::*;
use vstd::string::*;

verus! {

pub open spec fn is_digit(c: char) -> bool {
    '0' <= c && c <= '9'
}

pub open spec fn all_digits(s: Seq<char>) -> bool {
    forall|i: int| 0 <= i < s.len() ==> is_digit(#[trigger] s[i])
}

/// The value of a sequence of decimal digits.
pub open spec fn dec_val(s: Seq<char>) -> int
    decreases s.len(),
{
    if s.len() == 0 {
        0
    } else {
        dec_val(s.drop_last()) * 10 + (s.last() as int - '0' as int)
    }
}

pub proof fn lemma_dec_val_nonneg(s: Seq<char>)
    requires
        all_digits(s),
    ensures
        dec_val(s) >= 0,
    decreases s.len(),
{
    if s.len() > 0 {
        assert(all_digits(s.drop_last())) by {
            assert(forall|i: int|
                0 <= i < s.len() - 1 ==> #[trigger] s.drop_last()[i] == s[i]);
        }
        lemma_dec_val_nonneg(s.drop_last());
        assert(is_digit(s[s.len() - 1]));
    }
}

/// What an unsigned 64-bit decimal token parses to: an optional plus sign,
/// then at least one digit, with the value in range.
pub open spec fn parse_u64_of(s: Seq<char>) -> Option<u64> {
    let t = if s.len() > 0 && s[0] == '+' {
        s.skip(1)
    } else {
        s
    };
    if t.len() > 0 && all_digits(t) && dec_val(t) <= u64::MAX {
        Some(dec_val(t) as u64)
    } else {
        None
    }
}

pub open spec fn parse_u32_of(s: Seq<char>) -> Option<u32> {
    let t = if s.len() > 0 && s[0] == '+' {
        s.skip(1)
    } else {
        s
    };
    if t.len() > 0 && all_digits(t) && dec_val(t) <= u32::MAX {
        Some(dec_val(t) as u32)
    } else {
        None
    }
}

/// What a signed 32-bit decimal token parses to: an optional sign, then at
/// least one digit, with the signed value in range.
pub open spec fn parse_i32_of(s: Seq<char>) -> Option<i32> {
    let neg = s.len() > 0 && s[0] == '-';
    let t = if s.len() > 0 && (s[0] == '+' || s[0] == '-') {
        s.skip(1)
    } else {
        s
    };
    if t.len() > 0 && all_digits(t) {
        if neg && -dec_val(t) >= i32::MIN {
            Some((-dec_val(t)) as i32)
        } else if !neg && dec_val(t) <= i32::MAX {
            Some(dec_val(t) as i32)
        } else {
            None
        }
    } else {
        None
    }
}

/// Scans `s` from position `start` to the end as a run of decimal digits,
/// returning its value when it is nonempty, all digits, and fits in a `u64`.
fn scan_digits(s: &str, start: usize) -> (r: Option<u64>)
    requires
        start <= s@.len(),
    ensures
        ({
            let t = s@.skip(start as int);
            match r {
                Some(v) => t.len() > 0 && all_digits(t) && dec_val(t) == v,
                None => !(t.len() > 0 && all_digits(t) && dec_val(t) <= u64::MAX),
            }
        }),
{
    let n = s.unicode_len();
    if start == n {
        return None;
    }
    let ghost t = s@.skip(start as int);
    let mut acc: u64 = 0;
    let mut over: bool = false;
    let mut i: usize = start;
    while i < n
        invariant
            start <= i <= n,
            n == s@.len(),
            t == s@.skip(start as int),
            all_digits(s@.subrange(start as int, i as int)),
            !over ==> acc == dec_val(s@.subrange(start as int, i as int)),
            over ==> dec_val(s@.subrange(start as int, i as int)) > u64::MAX,
        decreases n - i,
    {
        let c = s.get_char(i);
        if c < '0' || c > '9' {
            proof {
                assert(t[i - start] == s@[i as int]);
            }
            return None;
        }
        let d: u64 = (c as u32 - 48) as u64;
        let ghost p = s@.subrange(start as int, i as int);
        proof {
            assert(p.push(s@[i as int]) =~= s@.subrange(start as int, i as int + 1));
            assert(dec_val(p.push(s@[i as int])) == dec_val(p) * 10 + d) by {
                assert(p.push(s@[i as int]).drop_last() =~= p);
            }
        }
        if over {
            proof {
                assert(dec_val(p) * 10 >= dec_val(p)) by (nonlinear_arith)
                    requires
                        dec_val(p) > 0,
                ;
            }
        } else {
            match acc.checked_mul(10) {
                Some(x) => {
                    match x.checked_add(d) {
                        Some(y) => {
                            acc = y;
                        },
                        None => {
                            over = true;
                        },
                    }
                },
                None => {
                    proof {
                        assert(dec_val(p) * 10 + d > u64::MAX);
                    }
                    over = true;
                },
            }
        }
        i += 1;
    }
    proof {
        assert(s@.subrange(start as int, n as int) =~= t);
    }
    if over {
        None
    } else {
        Some(acc)
    }
}

pub fn parse_u64_tok(s: &str) -> (r: Option<u64>)
    ensures
        r == parse_u64_of(s@),
{
    let n = s.unicode_len();
    if n > 0 && s.get_char(0) == '+' {
        scan_digits(s, 1)
    } else {
        proof {
            assert(s@.skip(0) =~= s@);
        }
        scan_digits(s, 0)
    }
}

pub fn parse_u32_tok(s: &str) -> (r: Option<u32>)
    ensures
        r == parse_u32_of(s@),
{
    let v = parse_u64_tok(s);
    proof {
        let t = if s@.len() > 0 && s@[0] == '+' {
            s@.skip(1)
        } else {
            s@
        };
        if v is Some {
            lemma_dec_val_nonneg(t);
        }
    }
    match v {
        Some(x) => {
            if x <= u32::MAX as u64 {
                Some(x as u32)
            } else {
                None
            }
        },
        None => None,
    }
}

pub fn parse_i32_tok(s: &str) -> (r: Option<i32>)
    ensures
        r == parse_i32_of(s@),
{
    let n = s.unicode_len();
    if n > 0 && s.get_char(0) == '-' {
        let v = scan_digits(s, 1);
        match v {
            Some(x) => {
                if x <= 2147483647u64 {
                    Some(-(x as i32))
                } else if x == 2147483648u64 {
                    Some(i32::MIN)
                } else {
                    None
                }
            },
            None => None,
        }
    } else if n > 0 && s.get_char(0) == '+' {
        let v = scan_digits(s, 1);
        match v {
            Some(x) => {
                if x <= i32::MAX as u64 {
                    Some(x as i32)
                } else {
                    None
                }
            },
            None => None,
        }
    } else {
        proof {
            assert(s@.skip(0) =~= s@);
        }
        let v = scan_digits(s, 0);
        match v {
            Some(x) => {
                if x <= i32::MAX as u64 {
                    Some(x as i32)
                } else {
                    None
                }
            },
            None => None,
        }
    }
}

} // verus!
