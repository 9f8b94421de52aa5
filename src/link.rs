use vstd::prelude::*;

use crate::digits::{is_digit, parse_u32, parse_u32_in};

verus! {

/// What `char::is_numeric` answers for a character (the Unicode number
/// categories).
pub uninterp spec fn numeric_char(c: char) -> bool;

/// Relies on `char::is_numeric`: true for characters of the Unicode number
/// categories; among ASCII characters only the digits `0` to `9` are in them.
#[verifier::external_body]
fn is_numeric(c: char) -> (r: bool)
    ensures
        r == numeric_char(c),
        (c as u32) < 128 ==> (r <==> ('0' <= c <= '9')),
{
    c.is_numeric()
}

pub open spec fn mc_at(s: Seq<char>, i: int) -> bool {
    0 <= i && i + 1 < s.len() && s[i] == 'm' && s[i + 1] == 'c'
}

/// The first position at or after `i` where `mc` starts, or the length of
/// `s` when there is none.
pub open spec fn first_mc_from(s: Seq<char>, i: int) -> int
    decreases s.len() - i,
{
    if i < 0 || i + 1 >= s.len() {
        s.len() as int
    } else if mc_at(s, i) {
        i
    } else {
        first_mc_from(s, i + 1)
    }
}

/// The leading characters of `s` that are numeric.
pub open spec fn numeric_prefix(s: Seq<char>) -> Seq<char>
    decreases s.len(),
{
    if s.len() == 0 || !numeric_char(s[0]) {
        Seq::empty()
    } else {
        seq![s[0]] + numeric_prefix(s.drop_first())
    }
}

/// A work id given as a plain number, or as a link that holds `mc<digits>`:
/// the digits that follow the first `mc`, before any later `mc`.
pub open spec fn id_of(s: Seq<char>) -> Option<u32> {
    if parse_u32(s) is Some {
        parse_u32(s)
    } else {
        let a = first_mc_from(s, 0);
        if a < s.len() {
            let b = first_mc_from(s, a + 2);
            parse_u32(numeric_prefix(s.subrange(a + 2, b)))
        } else {
            None
        }
    }
}

/// Every character of `s` is ASCII.
pub open spec fn all_ascii(s: Seq<char>) -> bool {
    forall|i: int| 0 <= i < s.len() ==> (#[trigger] s[i] as u32) < 128
}

/// The leading ASCII digits of `s`.
pub open spec fn digit_prefix(s: Seq<char>) -> Seq<char>
    decreases s.len(),
{
    if s.len() == 0 || !is_digit(s[0]) {
        Seq::empty()
    } else {
        seq![s[0]] + digit_prefix(s.drop_first())
    }
}

/// `id_of` for text made of ASCII characters alone, where the numeric
/// characters are exactly the digits `0` to `9`.
pub open spec fn id_of_ascii(s: Seq<char>) -> Option<u32> {
    if parse_u32(s) is Some {
        parse_u32(s)
    } else {
        let a = first_mc_from(s, 0);
        if a < s.len() {
            let b = first_mc_from(s, a + 2);
            parse_u32(digit_prefix(s.subrange(a + 2, b)))
        } else {
            None
        }
    }
}

/// The characters of `s`, in order.
pub(crate) fn chars_of(s: &str) -> (r: Vec<char>)
    ensures
        r@ == s@,
{
    let n = s.unicode_len();
    let mut r: Vec<char> = Vec::new();
    for i in 0..n
        invariant
            n == s@.len(),
            r@ == s@.subrange(0, i as int),
    {
        r.push(s.get_char(i));
        assert(r@ =~= s@.subrange(0, i + 1));
    }
    assert(r@ =~= s@);
    r
}

/// The first position at or after `i` where `mc` starts in `t`, or its
/// length.
fn find_mc(t: &Vec<char>, i: usize) -> (r: usize)
    requires
        i <= t.len(),
    ensures
        r as int == first_mc_from(t@, i as int),
        r <= t.len(),
        r < t.len() ==> r + 2 <= t.len(),
        r >= i,
{
    let mut k = i;
    while k < t.len() && !(k + 1 < t.len() && t[k] == 'm' && t[k + 1] == 'c')
        invariant
            i <= k <= t.len(),
            first_mc_from(t@, i as int) == first_mc_from(t@, k as int),
        decreases t.len() - k,
    {
        k = k + 1;
    }
    k
}

/// The work id named by a number or a link: the number itself, or else
/// the digits that follow `mc` in the link. `None` when neither reads as
/// a `u32`.
pub fn parse_id_or_link(id_or_link: String) -> (r: Option<u32>)
    ensures
        r == id_of(id_or_link@),
        all_ascii(id_or_link@) ==> r == id_of_ascii(id_or_link@),
{
    let t = chars_of(id_or_link.as_str());
    let whole = parse_u32_in(&t, 0, t.len());
    assert(t@.subrange(0, t@.len() as int) =~= t@);
    if whole.is_some() {
        return whole;
    }
    let a = find_mc(&t, 0);
    if a < t.len() {
        let b = find_mc(&t, a + 2);
        let ghost seg = t@.subrange(a + 2, b as int);
        let mut e = a + 2;
        while e < b && is_numeric(t[e])
            invariant
                a + 2 <= e <= b <= t.len(),
                seg == t@.subrange(a + 2, b as int),
                numeric_prefix(seg) == t@.subrange(a + 2, e as int) + numeric_prefix(t@.subrange(e as int, b as int)),
                all_ascii(t@) ==> digit_prefix(seg) == t@.subrange(a + 2, e as int) + digit_prefix(
                    t@.subrange(e as int, b as int),
                ),
            decreases b - e,
        {
            proof {
                let rest = t@.subrange(e as int, b as int);
                if all_ascii(t@) {
                    assert((t@[e as int] as u32) < 128);
                }
                assert(rest.drop_first() =~= t@.subrange(e + 1, b as int));
                assert(t@.subrange(a + 2, e + 1) =~= t@.subrange(a + 2, e as int) + seq![rest[0]]);
            }
            e = e + 1;
        }
        proof {
            assert(numeric_prefix(t@.subrange(e as int, b as int)) =~= Seq::<char>::empty());
            assert(numeric_prefix(seg) =~= t@.subrange(a + 2, e as int));
            if all_ascii(t@) {
                if e < b {
                    assert((t@[e as int] as u32) < 128);
                }
                assert(digit_prefix(t@.subrange(e as int, b as int)) =~= Seq::<char>::empty());
                assert(digit_prefix(seg) =~= t@.subrange(a + 2, e as int));
            }
        }
        parse_u32_in(&t, a + 2, e)
    } else {
        None
    }
}

} // verus!
