use vstd::prelude::*;
use crate::bytes::{push_range, DIGIT_NINE, DIGIT_ONE, DIGIT_ZERO, DOT, MINUS};
use crate::value::{Value, QueryError};

verus! {

pub open spec fn is_digit(b: u8) -> bool {
    DIGIT_ZERO <= b <= DIGIT_NINE
}

pub open spec fn digit_char(d: nat) -> u8 {
    (48 + d) as u8
}

/// Decimal digits of `n`, most significant first, no leading zeros.
pub open spec fn nat_text(n: nat) -> Seq<u8>
    decreases n,
{
    if n < 10 {
        seq![digit_char(n)]
    } else {
        nat_text(n / 10).push(digit_char(n % 10))
    }
}

/// Decimal text of `n`: a `-` before the digits of a negative number.
pub open spec fn int_text(n: int) -> Seq<u8> {
    if n < 0 {
        seq![MINUS] + nat_text((-n) as nat)
    } else {
        nat_text(n as nat)
    }
}

/// The number of consecutive decimal digits of `s` from index `i` on.
pub open spec fn digit_run(s: Seq<u8>, i: int) -> nat
    decreases s.len() - i,
{
    if 0 <= i < s.len() && is_digit(s[i]) {
        1 + digit_run(s, i + 1)
    } else {
        0
    }
}

/// The number that a sequence of decimal digits spells.
pub open spec fn digits_value(s: Seq<u8>) -> nat
    decreases s.len(),
{
    if s.len() == 0 {
        0
    } else {
        digits_value(s.drop_last()) * 10 + (s.last() - 48) as nat
    }
}

/// 1 if `s` starts with a minus sign, else 0.
pub open spec fn sign_len(s: Seq<u8>) -> int {
    if s.len() > 0 && s[0] == MINUS {
        1
    } else {
        0
    }
}

/// The integer that the numeric prefix of `s` spells: an optional `-`, then
/// decimal digits; 0 where there are no digits.
pub open spec fn leading_int(s: Seq<u8>) -> int {
    let st = sign_len(s);
    let v = digits_value(s.subrange(st, st + digit_run(s, st))) as int;
    if st == 1 {
        -v
    } else {
        v
    }
}

pub open spec fn fits_i64(x: int) -> bool {
    i64::MIN <= x <= i64::MAX
}

/// `s` without its leading zeros, keeping at least one digit.
pub open spec fn drop_leading_zeros(s: Seq<u8>) -> Seq<u8>
    decreases s.len(),
{
    if s.len() > 1 && s[0] == DIGIT_ZERO {
        drop_leading_zeros(s.drop_first())
    } else {
        s
    }
}

/// `s` without its trailing zeros.
pub open spec fn drop_trailing_zeros(s: Seq<u8>) -> Seq<u8>
    decreases s.len(),
{
    if s.len() > 0 && s.last() == DIGIT_ZERO {
        drop_trailing_zeros(s.drop_last())
    } else {
        s
    }
}

/// The digits after the `.` that follows the integer digits ending at `e`
/// (empty where there is no such `.` or no digit after it).
pub open spec fn fraction_digits(s: Seq<u8>, e: int) -> Seq<u8> {
    if e < s.len() && s[e] == DOT {
        s.subrange(e + 1, e + 1 + digit_run(s, e + 1))
    } else {
        Seq::empty()
    }
}

/// The canonical decimal text of the floating prefix of `s` (an optional
/// `-`, digits, and an optional `.` followed by digits): no leading zeros in
/// the integer part but one, no trailing zeros in the fraction, and no `.`
/// where the fraction is zero. `"0"` where `s` starts with no digits.
pub open spec fn float_prefix(s: Seq<u8>) -> Seq<u8> {
    let st = sign_len(s);
    let d = digit_run(s, st);
    if d == 0 {
        seq![DIGIT_ZERO]
    } else {
        let e = st + d;
        let ip = drop_leading_zeros(s.subrange(st, e));
        let frac = drop_trailing_zeros(fraction_digits(s, e));
        s.subrange(0, st) + ip + if frac.len() > 0 {
            seq![DOT] + frac
        } else {
            Seq::empty()
        }
    }
}

/// The integer a value coerces to under weak typing; `None` where a numeric
/// prefix does not fit in 64 bits.
pub open spec fn int_coercion(v: Value) -> Option<int> {
    match v {
        Value::Null => Some(0),
        Value::Bool(b) => Some(if b { 1 } else { 0 }),
        Value::Integer(n) => Some(n as int),
        Value::Float(t) => if fits_i64(leading_int(t@)) {
            Some(leading_int(t@))
        } else {
            None
        },
        Value::Str(s) => if fits_i64(leading_int(s@)) {
            Some(leading_int(s@))
        } else {
            None
        },
        Value::List(_) | Value::Assoc(_) => Some(if v.array_len() > 0 { 1 } else { 0 }),
        Value::Skip | Value::Other => Some(1),
    }
}

/// The decimal text of the floating value a value coerces to.
pub open spec fn float_coercion(v: Value) -> Seq<u8> {
    match v {
        Value::Null => seq![DIGIT_ZERO],
        Value::Bool(b) => if b { seq![DIGIT_ONE] } else { seq![DIGIT_ZERO] },
        Value::Integer(n) => int_text(n as int),
        Value::Float(t) => t@,
        Value::Str(s) => float_prefix(s@),
        Value::List(_) | Value::Assoc(_) => if v.array_len() > 0 {
            seq![DIGIT_ONE]
        } else {
            seq![DIGIT_ZERO]
        },
        Value::Skip | Value::Other => seq![DIGIT_ONE],
    }
}

proof fn lemma_nat_text_step(q: nat)
    requires
        q >= 10,
    ensures
        nat_text(q) == nat_text(q / 10) + seq![digit_char(q % 10)],
{
    assert(nat_text(q / 10).push(digit_char(q % 10)) == nat_text(q / 10) + seq![digit_char(q % 10)]);
}

/// Decimal text of a 64-bit integer.
pub fn decimal(n: i64) -> (r: Vec<u8>)
    ensures
        r@ == int_text(n as int),
{
    let mag: u64 = if n < 0 {
        let m: i64 = -(n + 1);
        m as u64 + 1
    } else {
        n as u64
    };
    let mut q: u64 = mag;
    let mut suffix: Vec<u8> = Vec::new();
    while q >= 10
        invariant
            nat_text(mag as nat) == nat_text(q as nat) + suffix@,
        decreases q,
    {
        let d: u8 = (q % 10) as u8 + 48;
        proof {
            lemma_nat_text_step(q as nat);
        }
        suffix.insert(0, d);
        assert(nat_text(mag as nat) == nat_text((q / 10) as nat) + suffix@);
        q = q / 10;
    }
    let mut r: Vec<u8> = Vec::new();
    if n < 0 {
        r.push(MINUS);
    }
    r.push(q as u8 + 48);
    push_range(&mut r, suffix.as_slice(), 0, suffix.len());
    assert(suffix@.subrange(0, suffix@.len() as int) == suffix@);
    assert(nat_text(q as nat) == seq![digit_char(q as nat)]);
    if n < 0 {
        assert(r@ == seq![MINUS] + nat_text(mag as nat));
    } else {
        assert(r@ == nat_text(mag as nat));
    }
    r
}

/// The index where the run of digits of `s` that starts at `start` ends.
fn digit_run_end(s: &[u8], start: usize) -> (e: usize)
    requires
        start <= s@.len(),
    ensures
        e == start + digit_run(s@, start as int),
        e <= s@.len(),
{
    let mut i: usize = start;
    while i < s.len() && DIGIT_ZERO <= s[i] && s[i] <= DIGIT_NINE
        invariant
            start <= i <= s@.len(),
            digit_run(s@, start as int) == (i - start) + digit_run(s@, i as int),
        decreases s@.len() - i,
    {
        i = i + 1;
    }
    i
}

proof fn lemma_digits_value_grows(s: Seq<u8>, a: int, k: int, j: int)
    requires
        0 <= a <= k <= j <= s.len(),
    ensures
        digits_value(s.subrange(a, k)) <= digits_value(s.subrange(a, j)),
    decreases j - k,
{
    if k < j {
        lemma_digits_value_grows(s, a, k, j - 1);
        assert(s.subrange(a, j).drop_last() == s.subrange(a, j - 1));
    }
}

/// The integer that the numeric prefix of `s` spells, or `None` where it
/// does not fit in 64 bits.
fn leading_i64(s: &[u8]) -> (r: Option<i64>)
    ensures
        r is Some <==> fits_i64(leading_int(s@)),
        r is Some ==> r->0 as int == leading_int(s@),
{
    let neg = s.len() > 0 && s[0] == MINUS;
    let st: usize = if neg { 1 } else { 0 };
    let end = digit_run_end(s, st);
    let ghost digits = s@.subrange(st as int, end as int);
    assert(sign_len(s@) == st as int);
    let limit: u64 = 0x8000_0000_0000_0000;
    let mut mag: u64 = 0;
    let mut i: usize = st;
    while i < end
        invariant
            st <= i <= end <= s@.len(),
            end == st + digit_run(s@, st as int),
            digits == s@.subrange(st as int, end as int),
            mag as nat == digits_value(s@.subrange(st as int, i as int)),
            mag <= limit,
            limit == 0x8000_0000_0000_0000u64,
            sign_len(s@) == st as int,
            neg == (st == 1),
        decreases end - i,
    {
        proof {
            assert(s@.subrange(st as int, i + 1).drop_last() == s@.subrange(st as int, i as int));
            assert(digit_run(s@, st as int) == (i - st) + digit_run(s@, i as int)) by {
                lemma_digit_run_split(s@, st as int, i as int);
            }
        }
        let d: u64 = (s[i] - DIGIT_ZERO) as u64;
        let next: u128 = mag as u128 * 10 + d as u128;
        assert(s@.subrange(st as int, i + 1).last() == s@[i as int]);
        assert(digits_value(s@.subrange(st as int, i + 1)) == next as nat);
        if next > limit as u128 {
            proof {
                lemma_digits_value_grows(s@, st as int, i + 1, end as int);
                assert(digits_value(digits) > 0x7fff_ffff_ffff_ffffnat + 1);
            }
            return None;
        }
        mag = next as u64;
        i = i + 1;
    }
    if neg {
        if mag == limit {
            Some(i64::MIN)
        } else {
            Some(-(mag as i64))
        }
    } else if mag == limit {
        None
    } else {
        Some(mag as i64)
    }
}

proof fn lemma_digit_run_split(s: Seq<u8>, a: int, k: int)
    requires
        0 <= a <= k,
        k <= a + digit_run(s, a),
    ensures
        digit_run(s, a) == (k - a) + digit_run(s, k),
        forall|m: int| a <= m < k ==> is_digit(#[trigger] s[m]) && 0 <= m < s.len(),
    decreases k - a,
{
    if a < k {
        lemma_digit_run_split(s, a + 1, k);
    }
}

/// Coerces `v` to an integer and renders it in decimal; a numeric prefix that
/// does not fit in 64 bits fails.
pub fn as_long_as_string(v: &Value) -> (r: Result<Vec<u8>, QueryError>)
    ensures
        match int_coercion(*v) {
            Some(n) => r matches Ok(t) && t@ == int_text(n),
            None => r == Err::<Vec<u8>, QueryError>(QueryError::CoercionFailed),
        },
{
    let n: i64 = match v {
        Value::Null => 0,
        Value::Bool(b) => if *b { 1 } else { 0 },
        Value::Integer(n) => *n,
        Value::Float(t) => match leading_i64(t.as_slice()) {
            Some(n) => n,
            None => return Err(QueryError::CoercionFailed),
        },
        Value::Str(s) => match leading_i64(s.as_slice()) {
            Some(n) => n,
            None => return Err(QueryError::CoercionFailed),
        },
        Value::List(items) => if items.len() > 0 { 1 } else { 0 },
        Value::Assoc(entries) => if entries.len() > 0 { 1 } else { 0 },
        Value::Skip | Value::Other => 1,
    };
    Ok(decimal(n))
}

/// The canonical text of the floating prefix of `s`.
fn float_prefix_text(s: &[u8]) -> (r: Vec<u8>)
    ensures
        r@ == float_prefix(s@),
{
    let st: usize = if s.len() > 0 && s[0] == MINUS { 1 } else { 0 };
    assert(sign_len(s@) == st as int);
    let e = digit_run_end(s, st);
    let mut r: Vec<u8> = Vec::new();
    if e == st {
        r.push(DIGIT_ZERO);
        assert(r@ =~= seq![DIGIT_ZERO]);
        return r;
    }
    proof {
        lemma_digit_run_split(s@, st as int, e as int);
    }
    let mut lead: usize = st;
    while lead + 1 < e && s[lead] == DIGIT_ZERO
        invariant
            st <= lead < e <= s@.len(),
            drop_leading_zeros(s@.subrange(st as int, e as int)) == drop_leading_zeros(
                s@.subrange(lead as int, e as int),
            ),
        decreases e - lead,
    {
        assert(s@.subrange(lead as int, e as int).drop_first() =~= s@.subrange(
            lead + 1,
            e as int,
        ));
        lead = lead + 1;
    }
    assert(drop_leading_zeros(s@.subrange(lead as int, e as int)) == s@.subrange(
        lead as int,
        e as int,
    ));
    push_range(&mut r, s, 0, st);
    push_range(&mut r, s, lead, e);
    let ghost fd = fraction_digits(s@, e as int);
    if e < s.len() && s[e] == DOT {
        let fe = digit_run_end(s, e + 1);
        assert(fd =~= s@.subrange(e + 1, fe as int));
        let mut stop: usize = fe;
        while stop > e + 1 && s[stop - 1] == DIGIT_ZERO
            invariant
                e + 1 <= stop <= fe <= s@.len(),
                drop_trailing_zeros(fd) == drop_trailing_zeros(
                    s@.subrange(e + 1, stop as int),
                ),
            decreases stop,
        {
            assert(s@.subrange(e + 1, stop as int).drop_last() =~= s@.subrange(
                e + 1,
                stop - 1,
            ));
            stop = stop - 1;
        }
        assert(drop_trailing_zeros(s@.subrange(e + 1, stop as int)) == s@.subrange(
            e + 1,
            stop as int,
        ));
        if stop > e + 1 {
            r.push(DOT);
            push_range(&mut r, s, e + 1, stop);
        }
    } else {
        assert(fd =~= Seq::<u8>::empty());
        assert(drop_trailing_zeros(fd) =~= Seq::<u8>::empty());
    }
    assert(r@ =~= float_prefix(s@));
    r
}

/// Coerces `v` to a floating value and renders it as decimal text.
pub fn as_float_as_string(v: &Value) -> (r: Vec<u8>)
    ensures
        r@ == float_coercion(*v),
{
    match v {
        Value::Null => vec![DIGIT_ZERO],
        Value::Bool(b) => if *b { vec![DIGIT_ONE] } else { vec![DIGIT_ZERO] },
        Value::Integer(n) => decimal(*n),
        Value::Float(t) => {
            let mut r: Vec<u8> = Vec::new();
            push_range(&mut r, t.as_slice(), 0, t.len());
            assert(t@.subrange(0, t@.len() as int) == t@);
            r
        },
        Value::Str(s) => float_prefix_text(s.as_slice()),
        Value::List(items) => if items.len() > 0 { vec![DIGIT_ONE] } else { vec![DIGIT_ZERO] },
        Value::Assoc(entries) => if entries.len() > 0 {
            vec![DIGIT_ONE]
        } else {
            vec![DIGIT_ZERO]
        },
        Value::Skip | Value::Other => vec![DIGIT_ONE],
    }
}

} // verus!
