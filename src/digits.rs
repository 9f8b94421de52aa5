use vstd::prelude::*;

verus! {

pub open spec fn is_digit(c: char) -> bool {
    '0' <= c <= '9'
}

/// The value of a run of ASCII digits.
pub open spec fn digits_value(s: Seq<char>) -> nat
    decreases s.len(),
{
    if s.len() == 0 {
        0
    } else {
        digits_value(s.drop_last()) * 10 + ((s.last() as nat) - ('0' as nat)) as nat
    }
}

/// How text reads as a `u32` in Rust's own integer syntax: an optional `+`,
/// then one or more ASCII digits whose value fits.
pub open spec fn parse_u32(s: Seq<char>) -> Option<u32> {
    if all_digits(unsigned_digits(s)) && digits_value(unsigned_digits(s)) <= u32::MAX {
        Some(digits_value(unsigned_digits(s)) as u32)
    } else {
        None
    }
}

/// The text after an optional leading `+`.
pub open spec fn unsigned_digits(s: Seq<char>) -> Seq<char> {
    if s.len() > 0 && s[0] == '+' { s.drop_first() } else { s }
}

/// A nonempty run of ASCII digits.
pub open spec fn all_digits(t: Seq<char>) -> bool {
    t.len() > 0 && forall|i: int| 0 <= i < t.len() ==> is_digit(#[trigger] t[i])
}

/// How text reads as an `i64` in Rust's own integer syntax: an optional
/// sign, then one or more ASCII digits whose value fits.
pub open spec fn parse_i64(s: Seq<char>) -> Option<i64> {
    if s.len() > 0 && s[0] == '-' {
        let t = s.drop_first();
        if all_digits(t) && digits_value(t) <= 0x8000_0000_0000_0000 {
            Some((-(digits_value(t) as int)) as i64)
        } else {
            None
        }
    } else if all_digits(unsigned_digits(s)) && digits_value(unsigned_digits(s)) <= i64::MAX {
        Some(digits_value(unsigned_digits(s)) as i64)
    } else {
        None
    }
}

proof fn lemma_digits_value_push(s: Seq<char>, c: char)
    ensures
        digits_value(s.push(c)) == digits_value(s) * 10 + ((c as nat) - ('0' as nat)) as nat,
{
    assert(s.push(c).drop_last() =~= s);
}

/// The value of a digit run is at least that of any of its prefixes.
proof fn lemma_digits_prefix_bound(u: Seq<char>, k: int)
    requires
        0 <= k <= u.len(),
        forall|j: int| 0 <= j < k ==> is_digit(#[trigger] u[j]),
    ensures
        (forall|j: int| 0 <= j < u.len() ==> is_digit(#[trigger] u[j])) ==> digits_value(u) >= digits_value(u.subrange(0, k)),
    decreases u.len(),
{
    if u.len() > k {
        if forall|j: int| 0 <= j < u.len() ==> is_digit(#[trigger] u[j]) {
            lemma_digits_prefix_bound(u.drop_last(), k);
            assert(u.drop_last().subrange(0, k) =~= u.subrange(0, k));
        }
    } else {
        assert(u.subrange(0, k) =~= u);
    }
}

/// Reads `t[from..to]` as a nonempty run of ASCII digits whose value is at
/// most `bound`.
pub fn digits_in(t: &Vec<char>, from: usize, to: usize, bound: u64) -> (r: Option<u64>)
    requires
        from <= to <= t.len(),
    ensures
        r is Some <==> (all_digits(t@.subrange(from as int, to as int))
            && digits_value(t@.subrange(from as int, to as int)) <= bound),
        r is Some ==> r->0 == digits_value(t@.subrange(from as int, to as int)),
{
    let ghost u = t@.subrange(from as int, to as int);
    if from == to {
        return None;
    }
    let mut v: u64 = 0;
    let mut i = from;
    while i < to
        invariant
            from <= i <= to <= t.len(),
            u == t@.subrange(from as int, to as int),
            forall|j: int| from <= j < i ==> is_digit(#[trigger] t@[j]),
            v == digits_value(t@.subrange(from as int, i as int)),
            v <= bound,
        decreases to - i,
    {
        let c = t[i];
        if !('0' <= c && c <= '9') {
            assert(!is_digit(u[i - from]));
            return None;
        }
        proof {
            lemma_digits_value_push(t@.subrange(from as int, i as int), c);
            assert(t@.subrange(from as int, i + 1) =~= t@.subrange(from as int, i as int).push(c));
        }
        let w: u128 = v as u128 * 10 + (c as u128 - '0' as u128);
        if w > bound as u128 {
            proof {
                assert(u.subrange(0, i + 1 - from) =~= t@.subrange(from as int, i + 1));
                lemma_digits_prefix_bound(u, (i + 1 - from) as int);
                assert(forall|j: int| 0 <= j < i + 1 - from ==> is_digit(#[trigger] u[j]));
            }
            return None;
        }
        v = w as u64;
        i = i + 1;
    }
    assert(t@.subrange(from as int, i as int) =~= u);
    Some(v)
}

/// Reads `t[from..to]` as a `u32` in Rust's integer syntax.
pub fn parse_u32_in(t: &Vec<char>, from: usize, to: usize) -> (r: Option<u32>)
    requires
        from <= to <= t.len(),
    ensures
        r == parse_u32(t@.subrange(from as int, to as int)),
{
    let ghost s = t@.subrange(from as int, to as int);
    let mut start = from;
    if from < to && t[from] == '+' {
        start = from + 1;
    }
    assert(t@.subrange(start as int, to as int) =~= unsigned_digits(s));
    match digits_in(t, start, to, 0xffff_ffff) {
        Some(v) => Some(v as u32),
        None => None,
    }
}

/// Reads `t[from..to]` as an `i64` in Rust's integer syntax.
pub fn parse_i64_in(t: &Vec<char>, from: usize, to: usize) -> (r: Option<i64>)
    requires
        from <= to <= t.len(),
    ensures
        r == parse_i64(t@.subrange(from as int, to as int)),
{
    let ghost s = t@.subrange(from as int, to as int);
    if from < to && t[from] == '-' {
        assert(t@.subrange(from + 1, to as int) =~= s.drop_first());
        match digits_in(t, from + 1, to, 0x8000_0000_0000_0000) {
            Some(v) => {
                if v == 0x8000_0000_0000_0000 {
                    Some(i64::MIN)
                } else {
                    Some(-(v as i64))
                }
            },
            None => None,
        }
    } else {
        let mut start = from;
        if from < to && t[from] == '+' {
            start = from + 1;
        }
        assert(t@.subrange(start as int, to as int) =~= unsigned_digits(s));
        match digits_in(t, start, to, 0x7fff_ffff_ffff_ffff) {
            Some(v) => Some(v as i64),
            None => None,
        }
    }
}

} // verus!
