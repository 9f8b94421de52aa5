use vstd::prelude::*;

verus! {

/// One step of scaling: 1024 units of one size make one of the next.
pub const UNIT_STEP: u64 = 1024;

/// The decimal digit character of `d` (which is below ten).
pub open spec fn digit_char(d: nat) -> char {
    if d == 0 { '0' }
    else if d == 1 { '1' }
    else if d == 2 { '2' }
    else if d == 3 { '3' }
    else if d == 4 { '4' }
    else if d == 5 { '5' }
    else if d == 6 { '6' }
    else if d == 7 { '7' }
    else if d == 8 { '8' }
    else { '9' }
}

/// The decimal representation of `n`, without leading zeros.
pub open spec fn decimal_digits(n: nat) -> Seq<char>
    decreases n,
{
    if n < 10 {
        seq![digit_char(n)]
    } else {
        decimal_digits(n / 10).push(digit_char(n % 10))
    }
}

/// Scales `v` down by 1024 while it exceeds 1024, at most `steps` times;
/// gives the scaled value and how many times it was divided.
pub open spec fn scaled(v: nat, steps: nat) -> (nat, nat)
    decreases steps,
{
    if steps == 0 || v <= 1024 {
        (v, 0)
    } else {
        let (w, k) = scaled(v / 1024, (steps - 1) as nat);
        (w, k + 1)
    }
}

/// The unit after `k` divisions by 1024.
pub open spec fn unit_name(k: nat) -> Seq<char> {
    if k == 0 { "B"@ }
    else if k == 1 { "KB"@ }
    else if k == 2 { "MB"@ }
    else if k == 3 { "GB"@ }
    else { "TB"@ }
}

/// The text for a byte count: the scaled value, a space, and its unit.
pub open spec fn byte_label(bytes: nat) -> Seq<char> {
    let (v, k) = scaled(bytes, 4);
    decimal_digits(v) + " "@ + unit_name(k)
}

fn digit_str(d: u64) -> (r: &'static str)
    requires
        d < 10,
    ensures
        r@ == seq![digit_char(d as nat)],
{
    proof {
        reveal_strlit("0");
        reveal_strlit("1");
        reveal_strlit("2");
        reveal_strlit("3");
        reveal_strlit("4");
        reveal_strlit("5");
        reveal_strlit("6");
        reveal_strlit("7");
        reveal_strlit("8");
        reveal_strlit("9");
    }
    if d == 0 { "0" }
    else if d == 1 { "1" }
    else if d == 2 { "2" }
    else if d == 3 { "3" }
    else if d == 4 { "4" }
    else if d == 5 { "5" }
    else if d == 6 { "6" }
    else if d == 7 { "7" }
    else if d == 8 { "8" }
    else { "9" }
}

/// Appends the decimal digits of `n` to `s`.
pub fn push_decimal(s: &mut String, n: u64)
    ensures
        final(s)@ == old(s)@ + decimal_digits(n as nat),
    decreases n,
{
    if n >= 10 {
        push_decimal(s, n / 10);
    }
    s.append(digit_str(n % 10));
    proof {
        assert(old(s)@ + decimal_digits(n as nat) =~= if n < 10 {
            old(s)@ + seq![digit_char(n as nat)]
        } else {
            (old(s)@ + decimal_digits((n / 10) as nat)) + seq![digit_char((n % 10) as nat)]
        });
    }
}

/// Renders a byte count with the largest unit among B, KB, MB, GB and TB
/// reached by integer division by 1024 while the value exceeds 1024, e.g.
/// `1 GB` for 1_500_000_000.
pub fn bytes_with_unit(bytes: u64) -> (r: String)
    ensures
        r@ == byte_label(bytes as nat),
{
    let mut v: u64 = bytes;
    let mut k: u64 = 0;
    while k < 4 && v > UNIT_STEP
        invariant
            k <= 4,
            scaled(bytes as nat, 4).0 == scaled(v as nat, (4 - k) as nat).0,
            scaled(bytes as nat, 4).1 == scaled(v as nat, (4 - k) as nat).1 + k,
        decreases 4 - k,
    {
        v = v / UNIT_STEP;
        k = k + 1;
    }
    proof {
        reveal_strlit(" ");
    }
    let mut s = String::new();
    push_decimal(&mut s, v);
    s.append(" ");
    let unit: &str = if k == 0 {
        proof { reveal_strlit("B"); }
        "B"
    } else if k == 1 {
        proof { reveal_strlit("KB"); }
        "KB"
    } else if k == 2 {
        proof { reveal_strlit("MB"); }
        "MB"
    } else if k == 3 {
        proof { reveal_strlit("GB"); }
        "GB"
    } else {
        proof { reveal_strlit("TB"); }
        "TB"
    };
    s.append(unit);
    assert(s@ =~= byte_label(bytes as nat));
    s
}

} // verus!
