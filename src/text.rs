use vstd::prelude::*;

verus! {

pub open spec fn digit_char(d: int) -> u8 {
    (48 + d) as u8
}

/// The decimal digits of `n`, most significant first, with no leading zero.
pub open spec fn decimal(n: nat) -> Seq<u8>
    decreases n,
{
    if n < 10 {
        seq![digit_char(n as int)]
    } else {
        decimal(n / 10).push(digit_char((n % 10) as int))
    }
}

/// `s` preceded by as many `'0'` as bring it to length `w`.
pub open spec fn zero_padded(s: Seq<u8>, w: nat) -> Seq<u8> {
    if s.len() >= w {
        s
    } else {
        Seq::new((w - s.len()) as nat, |i: int| 48u8) + s
    }
}

/// An amount in cents as text with two fractional digits, such as `-12.05`.
pub open spec fn money_text(c: int) -> Seq<u8> {
    let m = if c < 0 { -c } else { c };
    (if c < 0 { seq![45u8] } else { Seq::empty() }) + decimal((m / 100) as nat) + seq![
        46u8,
        digit_char((m % 100) / 10),
        digit_char(m % 10),
    ]
}

/// Appends the decimal digits of `n`.
pub fn push_decimal(out: &mut Vec<u8>, n: u128)
    ensures
        final(out)@ == old(out)@ + decimal(n as nat),
    decreases n,
{
    if n >= 10 {
        push_decimal(out, n / 10);
    }
    out.push(48 + (n % 10) as u8);
    assert(final(out)@ =~= old(out)@ + decimal(n as nat));
}

/// Appends the decimal digits of `n`, preceded by zeros up to width `w`.
pub fn push_padded(out: &mut Vec<u8>, n: u128, w: usize)
    ensures
        final(out)@ == old(out)@ + zero_padded(decimal(n as nat), w as nat),
{
    let mut digits: Vec<u8> = Vec::new();
    push_decimal(&mut digits, n);
    assert(digits@ =~= decimal(n as nat));
    let mut k: usize = digits.len();
    let ghost start = out@;
    while k < w
        invariant
            digits@ == decimal(n as nat),
            digits.len() <= k,
            k <= w || k == digits.len(),
            out@ == start + Seq::new((k - digits.len()) as nat, |i: int| 48u8),
        decreases w - k,
    {
        out.push(48u8);
        k = k + 1;
        assert(out@ =~= start + Seq::new((k - digits.len()) as nat, |i: int| 48u8));
    }
    let mut i: usize = 0;
    let ghost mid = out@;
    while i < digits.len()
        invariant
            i <= digits.len(),
            out@ == mid + digits@.take(i as int),
        decreases digits.len() - i,
    {
        out.push(digits[i]);
        i = i + 1;
        assert(out@ =~= mid + digits@.take(i as int));
    }
    assert(digits@.take(i as int) =~= digits@);
    assert(out@ =~= old(out)@ + zero_padded(decimal(n as nat), w as nat));
}

/// Appends an amount in cents with two fractional digits.
pub fn push_money(out: &mut Vec<u8>, c: i128)
    ensures
        final(out)@ == old(out)@ + money_text(c as int),
{
    let m: u128 = if c < 0 { (-(c + 1)) as u128 + 1 } else { c as u128 };
    let ghost start = out@;
    if c < 0 {
        out.push(45u8);
    }
    push_decimal(out, m / 100);
    out.push(46u8);
    out.push(48 + ((m % 100) / 10) as u8);
    out.push(48 + (m % 10) as u8);
    assert(out@ =~= start + money_text(c as int));
}

/// Appends the bytes of `s`.
pub fn push_all(out: &mut Vec<u8>, s: &[u8])
    ensures
        final(out)@ == old(out)@ + s@,
{
    let mut i: usize = 0;
    let ghost start = out@;
    while i < s.len()
        invariant
            i <= s.len(),
            out@ == start + s@.take(i as int),
        decreases s.len() - i,
    {
        out.push(s[i]);
        i = i + 1;
        assert(out@ =~= start + s@.take(i as int));
    }
    assert(s@.take(i as int) =~= s@);
}

} // verus!
