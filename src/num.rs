use vstd::prelude::*;

verus! {

pub open spec fn is_digit(c: char) -> bool {
    48 <= (c as u32) && (c as u32) <= 57
}

pub open spec fn digit_val(c: char) -> nat {
    ((c as u32) - 48) as nat
}

pub open spec fn all_digits(t: Seq<char>) -> bool {
    forall|i: int| 0 <= i < t.len() ==> is_digit(#[trigger] t[i])
}

/// The number that a string of decimal digits denotes.
pub open spec fn digits_value(t: Seq<char>) -> nat
    decreases t.len(),
{
    if t.len() == 0 {
        0
    } else {
        digits_value(t.drop_last()) * 10 + digit_val(t.last())
    }
}

/// The value of the digits `t`, if there is at least one, all are digits,
/// and the value is at most `limit`.
pub open spec fn bounded_digits(t: Seq<char>, limit: nat) -> Option<nat> {
    if t.len() > 0 && all_digits(t) && digits_value(t) <= limit {
        Some(digits_value(t))
    } else {
        None
    }
}

/// What `str::parse::<u32>` accepts: an optional `+`, then decimal digits, in range.
pub open spec fn parse_u32_spec(t: Seq<char>) -> Option<u32> {
    let d = if t.len() > 0 && t[0] == '+' { t.drop_first() } else { t };
    match bounded_digits(d, u32::MAX as nat) {
        Some(v) => Some(v as u32),
        None => None,
    }
}

/// What `str::parse::<i32>` accepts: an optional sign, then decimal digits, in range.
pub open spec fn parse_i32_spec(t: Seq<char>) -> Option<i32> {
    if t.len() > 0 && t[0] == '-' {
        match bounded_digits(t.drop_first(), 0x8000_0000) {
            Some(v) => Some((0 - v) as i32),
            None => None,
        }
    } else {
        let d = if t.len() > 0 && t[0] == '+' { t.drop_first() } else { t };
        match bounded_digits(d, 0x7fff_ffff) {
            Some(v) => Some(v as i32),
            None => None,
        }
    }
}

proof fn lemma_digits_prefix(u: Seq<char>, k: int)
    requires
        0 <= k <= u.len(),
    ensures
        digits_value(u) >= digits_value(u.take(k)),
    decreases u.len(),
{
    if k < u.len() {
        assert(u.drop_last().take(k) =~= u.take(k));
        lemma_digits_prefix(u.drop_last(), k);
    } else {
        assert(u.take(k) =~= u);
    }
}

fn digits_upto(t: &Vec<char>, start: usize, limit: u64) -> (r: Option<u64>)
    requires
        start <= t.len(),
        limit <= 0x1_0000_0000,
    ensures
        match bounded_digits(t@.skip(start as int), limit as nat) {
            Some(v) => r == Some(v as u64),
            None => r is None,
        },
{
    let ghost u = t@.skip(start as int);
    if start == t.len() {
        return None;
    }
    let mut v: u64 = 0;
    let mut i: usize = start;
    proof {
        assert(t@.subrange(start as int, start as int) =~= Seq::<char>::empty());
    }
    while i < t.len()
        invariant
            u == t@.skip(start as int),
            start <= i <= t.len(),
            limit <= 0x1_0000_0000,
            v <= limit,
            v == digits_value(t@.subrange(start as int, i as int)),
            all_digits(t@.subrange(start as int, i as int)),
        decreases t.len() - i,
    {
        let c = t[i];
        let cu = c as u32;
        let ghost w = t@.subrange(start as int, i + 1);
        proof {
            assert(w.drop_last() =~= t@.subrange(start as int, i as int));
            assert(w.last() == c);
            assert(u.take(i + 1 - start) =~= w);
        }
        if cu < 48 || cu > 57 {
            proof {
                assert(!is_digit(u[i - start]));
            }
            return None;
        }
        let nv = v * 10 + (cu - 48) as u64;
        if nv > limit {
            proof {
                lemma_digits_prefix(u, i + 1 - start);
            }
            return None;
        }
        v = nv;
        i = i + 1;
        proof {
            assert forall|k: int| 0 <= k < w.len() implies is_digit(#[trigger] w[k]) by {
                if k < w.len() - 1 {
                    assert(w[k] == t@.subrange(start as int, i - 1)[k]);
                }
            }
        }
    }
    proof {
        assert(t@.subrange(start as int, i as int) =~= u);
    }
    Some(v)
}

/// Reads an unsigned decimal number as `str::parse::<u32>` does.
pub fn parse_u32(t: &Vec<char>) -> (r: Option<u32>)
    ensures
        r == parse_u32_spec(t@),
{
    let start: usize = if t.len() > 0 && t[0] == '+' { 1 } else { 0 };
    proof {
        if start == 1 {
            assert(t@.skip(1) =~= t@.drop_first());
        } else {
            assert(t@.skip(0) =~= t@);
        }
    }
    match digits_upto(t, start, 0xffff_ffff) {
        Some(v) => Some(v as u32),
        None => None,
    }
}

/// Reads a signed decimal number as `str::parse::<i32>` does.
pub fn parse_i32(t: &Vec<char>) -> (r: Option<i32>)
    ensures
        r == parse_i32_spec(t@),
{
    if t.len() > 0 && t[0] == '-' {
        proof {
            assert(t@.skip(1) =~= t@.drop_first());
        }
        match digits_upto(t, 1, 0x8000_0000) {
            Some(v) => Some((0 - (v as i64)) as i32),
            None => None,
        }
    } else {
        let start: usize = if t.len() > 0 && t[0] == '+' { 1 } else { 0 };
        proof {
            if start == 1 {
                assert(t@.skip(1) =~= t@.drop_first());
            } else {
                assert(t@.skip(0) =~= t@);
            }
        }
        match digits_upto(t, start, 0x7fff_ffff) {
            Some(v) => Some(v as i32),
            None => None,
        }
    }
}

pub open spec fn digit_char(d: nat) -> char {
    if d == 0 { '0' } else if d == 1 { '1' } else if d == 2 { '2' } else if d == 3 { '3' }
    else if d == 4 { '4' } else if d == 5 { '5' } else if d == 6 { '6' } else if d == 7 { '7' }
    else if d == 8 { '8' } else { '9' }
}

/// The decimal digits of `n`, without leading zeros.
pub open spec fn decimal(n: nat) -> Seq<char>
    decreases n,
{
    if n < 10 {
        seq![digit_char(n)]
    } else {
        decimal(n / 10).push(digit_char(n % 10))
    }
}

/// The decimal notation of an integer, with `-` before a negative one.
pub open spec fn decimal_int(n: int) -> Seq<char> {
    if n < 0 {
        seq!['-'] + decimal((0 - n) as nat)
    } else {
        decimal(n as nat)
    }
}

fn digit_to_char(d: u64) -> (c: char)
    requires
        d < 10,
    ensures
        c == digit_char(d as nat),
{
    if d == 0 { '0' } else if d == 1 { '1' } else if d == 2 { '2' } else if d == 3 { '3' }
    else if d == 4 { '4' } else if d == 5 { '5' } else if d == 6 { '6' } else if d == 7 { '7' }
    else if d == 8 { '8' } else { '9' }
}

pub fn decimal_of_u64(n: u64) -> (r: Vec<char>)
    ensures
        r@ == decimal(n as nat),
    decreases n,
{
    if n < 10 {
        let mut v: Vec<char> = Vec::new();
        v.push(digit_to_char(n));
        proof {
            assert(v@ =~= seq![digit_char(n as nat)]);
        }
        v
    } else {
        let mut v = decimal_of_u64(n / 10);
        v.push(digit_to_char(n % 10));
        v
    }
}

/// The decimal notation of `n`, as `format!("{}", n)` writes it.
pub fn decimal_of_i64(n: i64) -> (r: Vec<char>)
    ensures
        r@ == decimal_int(n as int),
{
    if n < 0 {
        let m: u64 = if n == i64::MIN { 0x8000_0000_0000_0000u64 } else { (0 - n) as u64 };
        let d = decimal_of_u64(m);
        let mut v: Vec<char> = Vec::new();
        v.push('-');
        let mut i: usize = 0;
        while i < d.len()
            invariant
                i <= d.len(),
                v@ == seq!['-'] + d@.take(i as int),
            decreases d.len() - i,
        {
            v.push(d[i]);
            i = i + 1;
            proof {
                assert(v@ =~= seq!['-'] + d@.take(i as int));
            }
        }
        proof {
            assert(d@.take(i as int) =~= d@);
        }
        v
    } else {
        decimal_of_u64(n as u64)
    }
}

} // verus!
