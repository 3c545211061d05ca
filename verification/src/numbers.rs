use vstd::prelude::*;

verus! {

pub open spec fn is_digit(c: char) -> bool {
    48 <= c as u32 <= 57
}

pub open spec fn digit_val(c: char) -> nat {
    (c as u32 - 48) as nat
}

pub open spec fn all_digits(s: Seq<char>) -> bool {
    forall|i: int| 0 <= i < s.len() ==> is_digit(#[trigger] s[i])
}

/// The value of a non-empty digit string, most significant digit first.
pub open spec fn digits_val(s: Seq<char>) -> nat
    decreases s.len(),
{
    if s.len() == 0 {
        0
    } else {
        digits_val(s.drop_last()) * 10 + digit_val(s.last())
    }
}

/// Extending a digit string never shrinks its value.
pub proof fn lemma_digits_val_grows(s: Seq<char>)
    requires
        s.len() > 0,
    ensures
        digits_val(s) >= digits_val(s.drop_last()),
{
    let v = digits_val(s.drop_last());
    assert(v * 10 >= v) by (nonlinear_arith)
        requires v >= 0;
}

/// The body of an unsigned decimal token: the token with one leading `+`
/// removed, if present.
pub open spec fn unsigned_body(s: Seq<char>) -> Seq<char> {
    if s.len() > 0 && s[0] == '+' {
        s.drop_first()
    } else {
        s
    }
}

/// Decimal parsing of an unsigned token, as `str::parse` does it for an
/// unsigned integer type with maximum `limit`: an optional leading `+`, then
/// one or more digits, no other characters, and a value within range.
pub open spec fn parse_bounded(s: Seq<char>, limit: nat) -> Option<nat> {
    let body = unsigned_body(s);
    if body.len() > 0 && all_digits(body) && digits_val(body) <= limit {
        Some(digits_val(body))
    } else {
        None
    }
}

/// Decimal parsing of a non-negative 64-bit token, as `str::parse::<u64>`
/// does it: an optional leading `+`, then one or more digits, and a value
/// within the range of `u64` (the machine bound on a round number).
pub open spec fn spec_parse_u64(s: Seq<char>) -> Option<u64> {
    match parse_bounded(s, 0xffffffffffffffff) {
        Some(v) => Some(v as u64),
        None => None,
    }
}

/// Decimal parsing of a signed 64-bit token, as `str::parse::<i64>` does it:
/// an optional `+` or `-` sign, then one or more digits, and a value within
/// the range of `i64`.
pub open spec fn spec_parse_i64(s: Seq<char>) -> Option<i64> {
    if s.len() > 0 && s[0] == '-' {
        let body = s.drop_first();
        if body.len() > 0 && all_digits(body) && digits_val(body) <= 0x8000000000000000 {
            Some((-(digits_val(body) as int)) as i64)
        } else {
            None
        }
    } else {
        match parse_bounded(s, 0x7fffffffffffffff) {
            Some(v) => Some(v as i64),
            None => None,
        }
    }
}

/// Reads the digits of `t` from `start` to the end as a decimal value,
/// accepting only values up to `limit`.
fn digits_value(t: &Vec<char>, start: usize, limit: u64) -> (r: Option<u64>)
    requires
        start <= t@.len(),
    ensures
        ({
            let body = t@.subrange(start as int, t@.len() as int);
            match r {
                Some(v) => body.len() > 0 && all_digits(body) && digits_val(body) <= limit && v
                    == digits_val(body),
                None => !(body.len() > 0 && all_digits(body) && digits_val(body) <= limit),
            }
        }),
{
    let ghost body = t@.subrange(start as int, t@.len() as int);
    if start == t.len() {
        return None;
    }
    let mut i: usize = start;
    let mut acc: u128 = 0;
    let mut over = false;
    while i < t.len()
        invariant
            start <= i <= t@.len(),
            body == t@.subrange(start as int, t@.len() as int),
            all_digits(t@.subrange(start as int, i as int)),
            !over ==> acc == digits_val(t@.subrange(start as int, i as int)) && acc <= limit,
            over ==> digits_val(t@.subrange(start as int, i as int)) > limit,
        decreases t@.len() - i,
    {
        let ghost pre = t@.subrange(start as int, i as int);
        let ghost post = t@.subrange(start as int, i + 1 as int);
        proof {
            assert(post.drop_last() =~= pre);
            assert(post.last() == t@[i as int]);
        }
        let c = t[i];
        let u = c as u32;
        if u < 48 || u > 57 {
            proof {
                assert(i < t@.len());
                assert(0 <= i - start < body.len());
                assert(body[i - start] == t@[i as int]);
                assert(!is_digit(t@[i as int]));
                assert(!all_digits(body));
            }
            return None;
        }
        let d = (u - 48) as u128;
        proof {
            assert(digits_val(post) == digits_val(pre) * 10 + digit_val(t@[i as int]));
            if over {
                let v = digits_val(pre);
                assert(v * 10 >= v) by (nonlinear_arith)
                    requires v >= 0;
            }
        }
        if !over {
            let a2 = acc * 10 + d;
            if a2 > limit as u128 {
                over = true;
            } else {
                acc = a2;
            }
        }
        i += 1;
    }
    proof {
        assert(t@.subrange(start as int, i as int) =~= body);
    }
    if over {
        None
    } else {
        Some(acc as u64)
    }
}

/// Parses a token as `str::parse::<u64>` would: optional `+`, then digits.
pub fn parse_u64_token(t: &Vec<char>) -> (r: Option<u64>)
    ensures
        r == spec_parse_u64(t@),
{
    let start: usize = if t.len() > 0 && t[0] == '+' {
        1
    } else {
        0
    };
    proof {
        assert(t@.subrange(start as int, t@.len() as int) =~= unsigned_body(t@));
    }
    digits_value(t, start, 0xffffffffffffffff)
}

/// Parses a token as `str::parse::<i64>` would: optional sign, then digits.
pub fn parse_i64_token(t: &Vec<char>) -> (r: Option<i64>)
    ensures
        r == spec_parse_i64(t@),
{
    if t.len() > 0 && t[0] == '-' {
        proof {
            assert(t@.subrange(1, t@.len() as int) =~= t@.drop_first());
        }
        match digits_value(t, 1, 0x8000000000000000) {
            Some(v) => {
                if v == 0x8000000000000000 {
                    Some(i64::MIN)
                } else {
                    Some(-(v as i64))
                }
            },
            None => None,
        }
    } else {
        let start: usize = if t.len() > 0 && t[0] == '+' {
            1
        } else {
            0
        };
        proof {
            assert(t@.subrange(start as int, t@.len() as int) =~= unsigned_body(t@));
        }
        match digits_value(t, start, 0x7fffffffffffffff) {
            Some(v) => Some(v as i64),
            None => None,
        }
    }
}

} // verus!
