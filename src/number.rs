//! Fixed-point and scientific text of integers, in the number formatter's conventions: the
//! sign, the digits, and for scientific form a mantissa of one digit, `.` and the requested
//! fractional digits (rounded half to even), `e`, an explicit exponent sign and at least two
//! exponent digits.
use crate::format::{decimal, push_decimal};
use vstd::prelude::*;

verus! {

pub open spec fn pow10(k: nat) -> nat
    decreases k,
{
    if k == 0 {
        1
    } else {
        10 * pow10((k - 1) as nat)
    }
}

pub open spec fn zeros(n: nat) -> Seq<char> {
    Seq::new(n, |i: int| '0')
}

pub open spec fn abs(v: int) -> nat {
    if v < 0 {
        (-v) as nat
    } else {
        v as nat
    }
}

/// `-` for a negative number, `+` for another one where a sign is forced, else nothing.
pub open spec fn sign_text(v: int, sign: bool) -> Seq<char> {
    if v < 0 {
        seq!['-']
    } else if sign {
        seq!['+']
    } else {
        Seq::empty()
    }
}

/// Fixed-point text of an integer with `p` fractional digits (all zero).
pub open spec fn fixed_text(v: int, p: nat, sign: bool) -> Seq<char> {
    sign_text(v, sign) + decimal(abs(v)) + if p > 0 {
        seq!['.'] + zeros(p)
    } else {
        Seq::empty()
    }
}

/// The `p + 1` mantissa digits and the exponent of `n` in scientific notation, the dropped
/// digits rounded half to even.
pub open spec fn sci_parts(n: nat, p: nat) -> (Seq<char>, nat) {
    let e0 = (decimal(n).len() - 1) as nat;
    if e0 <= p {
        (decimal(n) + zeros((p - e0) as nat), e0)
    } else {
        let d = pow10((e0 - p) as nat);
        let q = n / d;
        let r = n % d;
        let q2 = if r * 2 > d || (r * 2 == d && q % 2 == 1) {
            q + 1
        } else {
            q
        };
        if q2 == pow10(p + 1) {
            (decimal(pow10(p)), e0 + 1)
        } else {
            (decimal(q2), e0)
        }
    }
}

/// Scientific text of an integer with `p` fractional mantissa digits.
pub open spec fn sci_text(v: int, p: nat, sign: bool) -> Seq<char> {
    let m = sci_parts(abs(v), p).0;
    let e = sci_parts(abs(v), p).1;
    sign_text(v, sign) + seq![m[0]] + (if p > 0 {
        seq!['.'] + m.drop_first()
    } else {
        Seq::empty()
    }) + seq!['e', '+'] + (if e < 10 {
        seq!['0']
    } else {
        Seq::empty()
    }) + decimal(e)
}

pub proof fn lemma_decimal_nonempty(n: nat)
    ensures
        decimal(n).len() >= 1,
    decreases n,
{
    if n >= 10 {
        lemma_decimal_nonempty(n / 10);
    }
}

/// A number of `L` digits is at least `10^(L-1)`, and below `10^m` it has at most `m` digits.
pub proof fn lemma_decimal_len(n: nat, m: nat)
    ensures
        n >= 1 ==> pow10((decimal(n).len() - 1) as nat) <= n,
        m >= 1 && n < pow10(m) ==> decimal(n).len() <= m,
    decreases n,
{
    lemma_decimal_nonempty(n);
    if n >= 10 {
        lemma_decimal_nonempty(n / 10);
        if m >= 1 {
            lemma_decimal_len(n / 10, (m - 1) as nat);
            if n < pow10(m) {
                assert(n / 10 < pow10((m - 1) as nat)) by (nonlinear_arith)
                    requires
                        n < pow10(m),
                        pow10(m) == 10 * pow10((m - 1) as nat),
                ;
                if m == 1 {
                    assert(pow10(0) == 1);
                }
            }
        } else {
            lemma_decimal_len(n / 10, 0);
        }
        let l = decimal(n / 10).len();
        assert(decimal(n).len() == l + 1);
        assert(pow10(l as nat) == 10 * pow10((l - 1) as nat));
        assert(10 * pow10((l - 1) as nat) <= n) by (nonlinear_arith)
            requires
                pow10((l - 1) as nat) <= n / 10,
        ;
    } else {
        assert(pow10(0) == 1);
    }
}

proof fn lemma_pow10_20()
    ensures
        pow10(20) == 100000000000000000000nat,
{
    reveal_with_fuel(pow10, 21);
}

proof fn lemma_pow10_mono(a: nat, b: nat)
    requires
        a <= b,
    ensures
        1 <= pow10(a) <= pow10(b),
    decreases b,
{
    if b > 0 {
        if a < b {
            lemma_pow10_mono(a, (b - 1) as nat);
        } else {
            lemma_pow10_mono((a - 1) as nat, (b - 1) as nat);
        }
    }
}

fn push_zeros(out: &mut Vec<char>, n: u64)
    ensures
        final(out)@ == old(out)@ + zeros(n as nat),
{
    let ghost start = out@;
    let mut i: u64 = 0;
    while i < n
        invariant
            i <= n,
            out@ == start + zeros(i as nat),
        decreases n - i,
    {
        out.push('0');
        i = i + 1;
        assert(start + zeros(i as nat) =~= (start + zeros((i - 1) as nat)).push('0'));
    }
}

/// Appends the sign text of a number.
fn push_sign(out: &mut Vec<char>, negative: bool, sign: bool)
    ensures
        final(out)@ == old(out)@ + (if negative {
            seq!['-']
        } else if sign {
            seq!['+']
        } else {
            Seq::empty()
        }),
{
    let ghost start = out@;
    if negative {
        out.push('-');
    } else if sign {
        out.push('+');
    }
    proof {
        if !negative && !sign {
            assert(start + Seq::<char>::empty() =~= start);
        }
    }
}

/// Fixed-point text of `v` with `p` fractional digits; see `fixed_text`.
pub fn fixed_number(v: i64, p: u16, sign: bool) -> (r: Vec<char>)
    ensures
        r@ == fixed_text(v as int, p as nat, sign),
{
    let mut out: Vec<char> = Vec::new();
    push_sign(&mut out, v < 0, sign);
    let n: u64 = if v == i64::MIN {
        9223372036854775808
    } else if v < 0 {
        (-v) as u64
    } else {
        v as u64
    };
    push_decimal(&mut out, n);
    let ghost mid = out@;
    if p > 0 {
        out.push('.');
        push_zeros(&mut out, p as u64);
        assert(out@ =~= mid + (seq!['.'] + zeros(p as nat)));
    } else {
        assert(out@ =~= mid + Seq::<char>::empty());
    }
    assert(Seq::<char>::empty() + out@ =~= out@);
    out
}

/// `10^k`, for `10^k <= n`.
fn pow10_upto(k: u64, Ghost(n): Ghost<nat>) -> (r: u64)
    requires
        pow10(k as nat) <= n <= u64::MAX,
    ensures
        r == pow10(k as nat),
{
    let mut d: u64 = 1;
    let mut j: u64 = 0;
    while j < k
        invariant
            j <= k,
            d == pow10(j as nat),
            pow10(k as nat) <= n <= u64::MAX,
        decreases k - j,
    {
        proof {
            lemma_pow10_mono((j + 1) as nat, k as nat);
        }
        d = d * 10;
        j = j + 1;
    }
    d
}

/// The mantissa digits and exponent of `n` where digits must be dropped; see `sci_parts`.
fn rounded_mantissa(n: u64, p: u16, e0: u64) -> (r: (Vec<char>, u64))
    requires
        e0 as nat == (decimal(n as nat).len() - 1) as nat,
        e0 > p,
        e0 <= 19,
    ensures
        (r.0@, r.1 as nat) == sci_parts(n as nat, p as nat),
        r.0@.len() >= 1,
{
    let k = e0 - p as u64;
    proof {
        lemma_decimal_len(n as nat, 0);
        lemma_pow10_mono(k as nat, e0 as nat);
    }
    let d = pow10_upto(k, Ghost(n as nat));
    let q = n / d;
    let r = n % d;
    let up = (r as u128) * 2 > d as u128 || ((r as u128) * 2 == d as u128 && q % 2 == 1);
    proof {
        lemma_pow10_mono(1, k as nat);
        assert(pow10(1) == 10) by {
            reveal_with_fuel(pow10, 2);
        }
    }
    let q2: u64 = if up {
        assert(q < n) by (nonlinear_arith)
            requires
                d >= 10,
                q == n / d,
                n >= d,
        ;
        q + 1
    } else {
        q
    };
    proof {
        lemma_pow10_20();
        lemma_pow10_mono((p + 1) as nat, 20);
    }
    let mut t: u128 = 1;
    let mut j: u64 = 0;
    while j < p as u64 + 1
        invariant
            j <= p as u64 + 1,
            p + 1 <= 20,
            t == pow10(j as nat),
        decreases p as u64 + 1 - j,
    {
        proof {
            lemma_pow10_20();
            lemma_pow10_mono((j + 1) as nat, 20);
        }
        t = t * 10;
        j = j + 1;
    }
    let mut mant: Vec<char> = Vec::new();
    if q2 as u128 == t {
        push_decimal(&mut mant, (t / 10) as u64);
        assert(mant@ =~= decimal(pow10(p as nat)));
        proof {
            lemma_decimal_nonempty(pow10(p as nat));
        }
        (mant, e0 + 1)
    } else {
        push_decimal(&mut mant, q2);
        assert(mant@ =~= decimal(q2 as nat));
        proof {
            lemma_decimal_nonempty(q2 as nat);
        }
        (mant, e0)
    }
}

/// The mantissa digits and exponent of `n`; see `sci_parts`.
fn sci_mantissa(n: u64, p: u16) -> (r: (Vec<char>, u64))
    ensures
        (r.0@, r.1 as nat) == sci_parts(n as nat, p as nat),
        r.0@.len() >= 1,
{
    let mut digits: Vec<char> = Vec::new();
    push_decimal(&mut digits, n);
    assert(digits@ =~= decimal(n as nat));
    proof {
        lemma_decimal_nonempty(n as nat);
        lemma_pow10_20();
        lemma_decimal_len(n as nat, 20);
    }
    let e0: u64 = (digits.len() - 1) as u64;
    if e0 <= p as u64 {
        let mut mant = digits;
        push_zeros(&mut mant, p as u64 - e0);
        assert(mant@.len() >= digits@.len());
        (mant, e0)
    } else {
        rounded_mantissa(n, p, e0)
    }
}

/// Scientific text of `v` with `p` fractional mantissa digits; see `sci_text`.
pub fn sci_number(v: i64, p: u16, sign: bool) -> (r: Vec<char>)
    ensures
        r@ == sci_text(v as int, p as nat, sign),
{
    let n: u64 = if v == i64::MIN {
        9223372036854775808
    } else if v < 0 {
        (-v) as u64
    } else {
        v as u64
    };
    assert(n as nat == abs(v as int));
    let (mant, e) = sci_mantissa(n, p);
    let mut out: Vec<char> = Vec::new();
    push_sign(&mut out, v < 0, sign);
    out.push(mant[0]);
    let ghost after_first = out@;
    if p > 0 {
        out.push('.');
        let mut i: usize = 1;
        while i < mant.len()
            invariant
                1 <= i <= mant.len(),
                out@ == after_first + seq!['.'] + mant@.subrange(1, i as int),
            decreases mant.len() - i,
        {
            out.push(mant[i]);
            i = i + 1;
            assert(mant@.subrange(1, i as int) =~= mant@.subrange(1, i - 1).push(mant@[i - 1]));
        }
        assert(mant@.subrange(1, mant.len() as int) =~= mant@.drop_first());
    }
    let ghost before_exp = out@;
    out.push('e');
    out.push('+');
    if e < 10 {
        out.push('0');
    }
    push_decimal(&mut out, e);
    proof {
        let s = sign_text(v as int, sign);
        let frac = if p > 0 {
            seq!['.'] + mant@.drop_first()
        } else {
            Seq::<char>::empty()
        };
        let lead = if e < 10 {
            seq!['0']
        } else {
            Seq::<char>::empty()
        };
        assert(after_first =~= s + seq![mant@[0]]);
        assert(before_exp =~= s + seq![mant@[0]] + frac);
        assert(out@ =~= s + seq![mant@[0]] + frac + seq!['e', '+'] + lead + decimal(e as nat));
    }
    out
}

} // verus!
