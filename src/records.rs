use vstd::map::*;
use vstd::prelude::*;

use crate::digits::{
    all_digits, digits_value, is_digit, parse_i64, parse_i64_in, parse_u32, parse_u32_in, unsigned_digits,
};
use crate::link::chars_of;
use crate::units::{decimal_digits, digit_char, push_decimal};

verus! {

/// What is kept on disk for an indexed episode: its id, its ordinal in
/// thousandths, its title, the host its pages are served from, and its page
/// references in order. It is written before any page is fetched, so a
/// resumed run knows the whole page set.
pub struct EpisodeIndex {
    pub id: u32,
    pub ord_milli: i64,
    pub title: String,
    pub host: String,
    pub pages: Vec<String>,
}

/// An index as plain values: id, ordinal, title, host and pages.
pub type IndexModel = (u32, i64, Seq<char>, Seq<char>, Seq<Seq<char>>);

pub open spec fn pages_view(pages: Seq<String>) -> Seq<Seq<char>> {
    pages.map_values(|p: String| p@)
}

impl EpisodeIndex {
    pub open spec fn model(&self) -> IndexModel {
        (self.id, self.ord_milli, self.title@, self.host@, pages_view(self.pages@))
    }
}

/// A character as written in a line of the index file: a backslash and a
/// line break are written as `\\` and `\n`.
pub open spec fn escape_char(c: char) -> Seq<char> {
    if c == '\\' {
        seq!['\\', '\\']
    } else if c == '\n' {
        seq!['\\', 'n']
    } else {
        seq![c]
    }
}

pub open spec fn escaped(s: Seq<char>) -> Seq<char>
    decreases s.len(),
{
    if s.len() == 0 {
        Seq::empty()
    } else {
        escaped(s.drop_last()) + escape_char(s.last())
    }
}

/// The text of a line read back: `None` where a backslash starts no known
/// escape.
pub open spec fn unescaped(s: Seq<char>) -> Option<Seq<char>>
    decreases s.len(),
{
    if s.len() == 0 {
        Some(Seq::empty())
    } else if s[0] == '\\' {
        if s.len() >= 2 && (s[1] == '\\' || s[1] == 'n') {
            match unescaped(s.subrange(2, s.len() as int)) {
                Some(r) => Some(seq![if s[1] == 'n' { '\n' } else { '\\' }] + r),
                None => None,
            }
        } else {
            None
        }
    } else {
        match unescaped(s.drop_first()) {
            Some(r) => Some(seq![s[0]] + r),
            None => None,
        }
    }
}

pub open spec fn signed_decimal(n: i64) -> Seq<char> {
    if n < 0 {
        seq!['-'] + decimal_digits((-n) as nat)
    } else {
        decimal_digits(n as nat)
    }
}

pub open spec fn page_lines(pages: Seq<Seq<char>>) -> Seq<char>
    decreases pages.len(),
{
    if pages.len() == 0 {
        Seq::empty()
    } else {
        escaped(pages[0]) + seq!['\n'] + page_lines(pages.drop_first())
    }
}

/// The index file: the id, the ordinal, the title, the host, then one page
/// reference per line, every line ending in a line break.
pub open spec fn index_text(m: IndexModel) -> Seq<char> {
    decimal_digits(m.0 as nat) + seq!['\n'] + signed_decimal(m.1) + seq!['\n'] + escaped(m.2) + seq!['\n']
        + escaped(m.3) + seq!['\n'] + page_lines(m.4)
}

/// How many characters from `i` come before the next line break (or the end).
pub open spec fn line_len(t: Seq<char>, i: int) -> nat
    decreases t.len() - i,
{
    if i < 0 || i >= t.len() || t[i] == '\n' {
        0
    } else {
        1 + line_len(t, i + 1)
    }
}

/// The page lines from position `i` to the end of `t`, read back.
pub open spec fn decode_lines(t: Seq<char>, i: int) -> Option<Seq<Seq<char>>>
    decreases t.len() - i,
{
    if i < 0 || i >= t.len() {
        Some(Seq::empty())
    } else {
        let k = i + line_len(t, i);
        if k >= t.len() {
            None
        } else {
            match (unescaped(t.subrange(i, k)), decode_lines(t, k + 1)) {
                (Some(l), Some(rest)) => Some(seq![l] + rest),
                _ => None,
            }
        }
    }
}

/// An index file read back, or `None` where it is cut short or a line does
/// not read.
pub open spec fn decoded_index(t: Seq<char>) -> Option<IndexModel> {
    let e0 = line_len(t, 0) as int;
    let i1 = e0 + 1;
    let e1 = i1 + line_len(t, i1);
    let i2 = e1 + 1;
    let e2 = i2 + line_len(t, i2);
    let i3 = e2 + 1;
    let e3 = i3 + line_len(t, i3);
    if e3 < t.len() {
        match (
            parse_u32(t.subrange(0, e0)),
            parse_i64(t.subrange(i1, e1)),
            unescaped(t.subrange(i2, e2)),
            unescaped(t.subrange(i3, e3)),
            decode_lines(t, e3 + 1),
        ) {
            (Some(id), Some(ord), Some(title), Some(host), Some(pages)) => Some((id, ord, title, host, pages)),
            _ => None,
        }
    } else {
        None
    }
}

pub open spec fn no_newline(s: Seq<char>) -> bool {
    forall|j: int| 0 <= j < s.len() ==> s[j] != '\n'
}

// ---- writing

fn push_escaped(out: &mut String, s: &str)
    ensures
        final(out)@ == old(out)@ + escaped(s@),
{
    let t = chars_of(s);
    let n = t.len();
    for i in 0..n
        invariant
            n == t.len(),
            t@ == s@,
            out@ == old(out)@ + escaped(s@.subrange(0, i as int)),
    {
        let c = t[i];
        let ghost before = out@;
        if c == '\\' {
            proof {
                reveal_strlit("\\\\");
            }
            out.append("\\\\");
            assert(out@ =~= before + escape_char(c));
        } else if c == '\n' {
            proof {
                reveal_strlit("\\n");
            }
            out.append("\\n");
            assert(out@ =~= before + escape_char(c));
        } else {
            out.append(s.substring_char(i, i + 1));
            assert(s@.subrange(i as int, i + 1) =~= seq![c]);
            assert(out@ =~= before + escape_char(c));
        }
        assert(s@.subrange(0, i + 1).drop_last() =~= s@.subrange(0, i as int));
        assert(s@.subrange(0, i + 1).last() == c);
        assert(out@ =~= old(out)@ + escaped(s@.subrange(0, i + 1)));
    }
    assert(s@.subrange(0, n as int) =~= s@);
}

fn push_newline(out: &mut String)
    ensures
        final(out)@ == old(out)@ + seq!['\n'],
{
    proof {
        reveal_strlit("\n");
    }
    out.append("\n");
}

proof fn lemma_page_lines_push(pages: Seq<Seq<char>>, p: Seq<char>)
    ensures
        page_lines(pages.push(p)) == page_lines(pages) + escaped(p) + seq!['\n'],
    decreases pages.len(),
{
    if pages.len() == 0 {
        assert(pages.push(p).drop_first() =~= Seq::<Seq<char>>::empty());
        assert(pages.push(p)[0] == p);
        assert(page_lines(Seq::<Seq<char>>::empty()) == Seq::<char>::empty());
        assert(page_lines(pages.push(p)) =~= escaped(p) + seq!['\n']);
    } else {
        lemma_page_lines_push(pages.drop_first(), p);
        assert(pages.push(p).drop_first() =~= pages.drop_first().push(p));
        assert(page_lines(pages.push(p)) =~= page_lines(pages) + escaped(p) + seq!['\n']);
    }
}

/// The text of the index file for `r`.
pub fn encode_index(r: &EpisodeIndex) -> (s: String)
    ensures
        s@ == index_text(r.model()),
{
    let mut s = String::new();
    push_decimal(&mut s, r.id as u64);
    push_newline(&mut s);
    if r.ord_milli < 0 {
        proof {
            reveal_strlit("-");
        }
        s.append("-");
        let mag: u64 = if r.ord_milli == i64::MIN {
            0x8000_0000_0000_0000
        } else {
            (-r.ord_milli) as u64
        };
        push_decimal(&mut s, mag);
    } else {
        push_decimal(&mut s, r.ord_milli as u64);
    }
    push_newline(&mut s);
    push_escaped(&mut s, r.title.as_str());
    push_newline(&mut s);
    push_escaped(&mut s, r.host.as_str());
    push_newline(&mut s);
    let ghost head = s@;
    for i in 0..r.pages.len()
        invariant
            s@ == head + page_lines(pages_view(r.pages@.subrange(0, i as int))),
    {
        proof {
            assert(pages_view(r.pages@.subrange(0, i + 1)) =~= pages_view(r.pages@.subrange(0, i as int)).push(
                r.pages@[i as int]@,
            ));
            lemma_page_lines_push(pages_view(r.pages@.subrange(0, i as int)), r.pages@[i as int]@);
        }
        push_escaped(&mut s, r.pages[i].as_str());
        push_newline(&mut s);
    }
    assert(r.pages@.subrange(0, r.pages.len() as int) =~= r.pages@);
    assert(s@ =~= index_text(r.model()));
    s
}

// ---- reading

/// `p` put in front of the sequence that `o` holds, if it holds one.
pub open spec fn prepend<A>(p: Seq<A>, o: Option<Seq<A>>) -> Option<Seq<A>> {
    match o {
        Some(r) => Some(p + r),
        None => None,
    }
}

proof fn lemma_prepend_assoc<A>(a: Seq<A>, b: Seq<A>, o: Option<Seq<A>>)
    ensures
        prepend(a, prepend(b, o)) == prepend(a + b, o),
{
    if let Some(r) = o {
        assert(a + (b + r) =~= (a + b) + r);
    }
}

/// The end of the line that starts at `i`: the position of the next line
/// break, or the length of `t`.
fn line_end(t: &Vec<char>, i: usize) -> (k: usize)
    requires
        i <= t.len(),
    ensures
        k == i + line_len(t@, i as int),
        k <= t.len(),
{
    let mut k = i;
    while k < t.len() && t[k] != '\n'
        invariant
            i <= k <= t.len(),
            i + line_len(t@, i as int) == k + line_len(t@, k as int),
        decreases t.len() - k,
    {
        k = k + 1;
    }
    k
}

/// Reads back the escaped line `t[from..to]` of `text`.
fn unescape_in(text: &str, t: &Vec<char>, from: usize, to: usize) -> (r: Option<String>)
    requires
        t@ == text@,
        from <= to <= t.len(),
    ensures
        r is Some <==> unescaped(t@.subrange(from as int, to as int)) is Some,
        r is Some ==> r->0@ == unescaped(t@.subrange(from as int, to as int))->0,
{
    let mut out = String::new();
    let mut j = from;
    while j < to
        invariant
            t@ == text@,
            from <= j <= to <= t.len(),
            unescaped(t@.subrange(from as int, to as int)) == prepend(out@, unescaped(t@.subrange(j as int, to as int))),
        decreases to - j,
    {
        let ghost u = t@.subrange(j as int, to as int);
        let ghost before = out@;
        assert(u[0] == t@[j as int]);
        if t[j] == '\\' {
            if j + 1 < to && (t[j + 1] == '\\' || t[j + 1] == 'n') {
                assert(u[1] == t@[j + 1]);
                assert(u.subrange(2, u.len() as int) =~= t@.subrange(j + 2, to as int));
                if t[j + 1] == 'n' {
                    proof {
                        reveal_strlit("\n");
                    }
                    out.append("\n");
                } else {
                    proof {
                        reveal_strlit("\\");
                    }
                    out.append("\\");
                }
                proof {
                    lemma_prepend_assoc(before, out@.subrange(before.len() as int, out@.len() as int), unescaped(t@.subrange(j + 2, to as int)));
                    assert(before + out@.subrange(before.len() as int, out@.len() as int) =~= out@);
                }
                j = j + 2;
            } else {
                return None;
            }
        } else {
            out.append(text.substring_char(j, j + 1));
            proof {
                assert(text@.subrange(j as int, j + 1) =~= seq![t@[j as int]]);
                assert(u.drop_first() =~= t@.subrange(j + 1, to as int));
                lemma_prepend_assoc(before, seq![t@[j as int]], unescaped(t@.subrange(j + 1, to as int)));
            }
            j = j + 1;
        }
    }
    assert(t@.subrange(j as int, to as int) =~= Seq::<char>::empty());
    assert(out@ + Seq::<char>::empty() =~= out@);
    Some(out)
}

/// Reads back the page lines from position `i` to the end of `text`.
fn decode_pages(text: &str, t: &Vec<char>, i: usize) -> (r: Option<Vec<String>>)
    requires
        t@ == text@,
        i <= t.len(),
    ensures
        r is Some <==> decode_lines(t@, i as int) is Some,
        r is Some ==> pages_view(r->0@) == decode_lines(t@, i as int)->0,
{
    let mut out: Vec<String> = Vec::new();
    let mut p = i;
    while p < t.len()
        invariant
            t@ == text@,
            i <= p <= t.len(),
            decode_lines(t@, i as int) == prepend(pages_view(out@), decode_lines(t@, p as int)),
        decreases t.len() - p,
    {
        let k = line_end(t, p);
        if k >= t.len() {
            return None;
        }
        match unescape_in(text, t, p, k) {
            Some(line) => {
                let ghost before = pages_view(out@);
                proof {
                    lemma_prepend_assoc(before, seq![line@], decode_lines(t@, k + 1));
                }
                out.push(line);
                assert(pages_view(out@) =~= before + seq![line@]);
            },
            None => {
                return None;
            },
        }
        p = k + 1;
    }
    assert(pages_view(out@) + Seq::<Seq<char>>::empty() =~= pages_view(out@));
    Some(out)
}

/// Reads an index file back; `None` where it is cut short or one of its
/// lines does not read.
pub fn decode_index(text: &str) -> (r: Option<EpisodeIndex>)
    ensures
        r is Some <==> decoded_index(text@) is Some,
        r is Some ==> r->0.model() == decoded_index(text@)->0,
{
    let t = chars_of(text);
    let ghost s = t@;
    let e0 = line_end(&t, 0);
    if e0 >= t.len() {
        return None;
    }
    let e1 = line_end(&t, e0 + 1);
    if e1 >= t.len() {
        return None;
    }
    let e2 = line_end(&t, e1 + 1);
    if e2 >= t.len() {
        return None;
    }
    let e3 = line_end(&t, e2 + 1);
    if e3 >= t.len() {
        return None;
    }
    let id = parse_u32_in(&t, 0, e0);
    let ord = parse_i64_in(&t, e0 + 1, e1);
    let title = unescape_in(text, &t, e1 + 1, e2);
    let host = unescape_in(text, &t, e2 + 1, e3);
    let pages = decode_pages(text, &t, e3 + 1);
    match (id, ord, title, host, pages) {
        (Some(id), Some(ord_milli), Some(title), Some(host), Some(pages)) => {
            Some(EpisodeIndex { id, ord_milli, title, host, pages })
        },
        _ => None,
    }
}

// ---- reading back what was written

proof fn lemma_escaped_front(c: char, s: Seq<char>)
    ensures
        escaped(seq![c] + s) == escape_char(c) + escaped(s),
    decreases s.len(),
{
    if s.len() == 0 {
        assert((seq![c] + s).drop_last() =~= Seq::<char>::empty());
        assert((seq![c] + s).last() == c);
        assert(escaped(Seq::<char>::empty()) == Seq::<char>::empty());
        assert(s =~= Seq::<char>::empty());
        assert(escaped(seq![c] + s) =~= escape_char(c) + escaped(s));
    } else {
        lemma_escaped_front(c, s.drop_last());
        assert((seq![c] + s).drop_last() =~= seq![c] + s.drop_last());
        assert((seq![c] + s).last() == s.last());
        assert(escaped(seq![c] + s) == escaped(seq![c] + s.drop_last()) + escape_char(s.last()));
        assert(escaped(s) == escaped(s.drop_last()) + escape_char(s.last()));
        assert(escaped(seq![c] + s) =~= escape_char(c) + escaped(s));
    }
}

proof fn lemma_unescape_escaped(s: Seq<char>)
    ensures
        unescaped(escaped(s)) == Some(s),
    decreases s.len(),
{
    if s.len() > 0 {
        let c = s[0];
        let rest = s.drop_first();
        assert(s =~= seq![c] + rest);
        lemma_escaped_front(c, rest);
        lemma_unescape_escaped(rest);
        let e = escaped(s);
        let er = escaped(rest);
        if c == '\\' || c == '\n' {
            assert(e.subrange(2, e.len() as int) =~= er);
        } else {
            assert(e.drop_first() =~= er);
        }
        assert(seq![c] + rest =~= s);
    } else {
        assert(escaped(s) =~= Seq::<char>::empty());
    }
}

proof fn lemma_escaped_no_newline(s: Seq<char>)
    ensures
        no_newline(escaped(s)),
    decreases s.len(),
{
    if s.len() > 0 {
        lemma_escaped_no_newline(s.drop_last());
        let e = escaped(s);
        let a = escaped(s.drop_last());
        assert forall|j: int| 0 <= j < e.len() implies e[j] != '\n' by {
            if j >= a.len() {
                assert(e[j] == escape_char(s.last())[j - a.len()]);
            } else {
                assert(e[j] == a[j]);
            }
        }
    }
}

proof fn lemma_digit_char(d: nat)
    requires
        d < 10,
    ensures
        is_digit(digit_char(d)),
        (digit_char(d) as nat) - ('0' as nat) == d,
{
}

proof fn lemma_decimal(n: nat)
    ensures
        all_digits(decimal_digits(n)),
        digits_value(decimal_digits(n)) == n,
    decreases n,
{
    let s = decimal_digits(n);
    if n < 10 {
        lemma_digit_char(n);
        assert(s.drop_last() =~= Seq::<char>::empty());
        assert(digits_value(Seq::<char>::empty()) == 0);
        assert(s.last() == digit_char(n));
    } else {
        lemma_decimal(n / 10);
        lemma_digit_char(n % 10);
        assert(s.drop_last() =~= decimal_digits(n / 10));
        assert(s.last() == digit_char(n % 10));
        assert(digits_value(s) == digits_value(decimal_digits(n / 10)) * 10 + ((digit_char(n % 10) as nat) - ('0' as nat)) as nat);
        assert(n == (n / 10) * 10 + n % 10);
        assert forall|j: int| 0 <= j < s.len() implies is_digit(#[trigger] s[j]) by {
            if j < s.len() - 1 {
                assert(s[j] == decimal_digits(n / 10)[j]);
            }
        }
    }
}

proof fn lemma_digits_no_newline(s: Seq<char>)
    requires
        all_digits(s),
    ensures
        no_newline(s),
        s[0] != '+' && s[0] != '-',
{
    assert forall|j: int| 0 <= j < s.len() implies s[j] != '\n' by {
        assert(is_digit(s[j]));
    }
    assert(is_digit(s[0]));
}

proof fn lemma_number_lines(id: u32, ord: i64)
    ensures
        no_newline(decimal_digits(id as nat)),
        parse_u32(decimal_digits(id as nat)) == Some(id),
        no_newline(signed_decimal(ord)),
        parse_i64(signed_decimal(ord)) == Some(ord),
{
    lemma_decimal(id as nat);
    lemma_digits_no_newline(decimal_digits(id as nat));
    let s = signed_decimal(ord);
    if ord < 0 {
        let m = (-ord) as nat;
        lemma_decimal(m);
        lemma_digits_no_newline(decimal_digits(m));
        assert(s.drop_first() =~= decimal_digits(m));
        assert forall|j: int| 0 <= j < s.len() implies s[j] != '\n' by {
            if j > 0 {
                assert(s[j] == decimal_digits(m)[j - 1]);
            }
        }
    } else {
        lemma_decimal(ord as nat);
        lemma_digits_no_newline(decimal_digits(ord as nat));
    }
}

proof fn lemma_line_len_at(t: Seq<char>, i: int, n: nat)
    requires
        0 <= i,
        i + n < t.len(),
        forall|j: int| i <= j < i + n ==> t[j] != '\n',
        t[i + n] == '\n',
    ensures
        line_len(t, i) == n,
    decreases n,
{
    if n > 0 {
        lemma_line_len_at(t, i + 1, (n - 1) as nat);
    }
}

/// In `x + f + "\n" + y`, where `f` holds no line break, the line that starts
/// after `x` is `f`.
proof fn lemma_line(x: Seq<char>, f: Seq<char>, y: Seq<char>)
    requires
        no_newline(f),
    ensures
        line_len(x + f + seq!['\n'] + y, x.len() as int) == f.len(),
        (x + f + seq!['\n'] + y).subrange(x.len() as int, (x.len() + f.len()) as int) == f,
{
    let t = x + f + seq!['\n'] + y;
    assert forall|j: int| x.len() <= j < x.len() + f.len() implies t[j] != '\n' by {
        assert(t[j] == f[j - x.len()]);
    }
    assert(t[(x.len() + f.len()) as int] == '\n');
    lemma_line_len_at(t, x.len() as int, f.len());
    assert(t.subrange(x.len() as int, (x.len() + f.len()) as int) =~= f);
}

proof fn lemma_decode_page_lines(x: Seq<char>, pages: Seq<Seq<char>>)
    ensures
        decode_lines(x + page_lines(pages), x.len() as int) == Some(pages),
    decreases pages.len(),
{
    let t = x + page_lines(pages);
    if pages.len() == 0 {
        assert(pages =~= Seq::<Seq<char>>::empty());
    } else {
        let p = pages[0];
        let rest = pages.drop_first();
        let e = escaped(p);
        lemma_escaped_no_newline(p);
        lemma_unescape_escaped(p);
        assert(t =~= x + e + seq!['\n'] + page_lines(rest));
        lemma_line(x, e, page_lines(rest));
        let x2 = x + e + seq!['\n'];
        assert(t =~= x2 + page_lines(rest));
        lemma_decode_page_lines(x2, rest);
        assert(seq![p] + rest =~= pages);
    }
}

/// What is written for an index reads back as the same index, so a reader
/// sees the saved record whichever of several identical saves it follows.
pub proof fn lemma_index_round_trip(m: IndexModel)
    ensures
        decoded_index(index_text(m)) == Some(m),
{
    let (id, ord, title, host, pages) = m;
    let t = index_text(m);
    let nl = seq!['\n'];
    let d = decimal_digits(id as nat);
    let sd = signed_decimal(ord);
    let et = escaped(title);
    let eh = escaped(host);
    let pl = page_lines(pages);
    lemma_number_lines(id, ord);
    lemma_escaped_no_newline(title);
    lemma_escaped_no_newline(host);
    lemma_unescape_escaped(title);
    lemma_unescape_escaped(host);
    let x0 = Seq::<char>::empty();
    let x1 = d + nl;
    let x2 = x1 + sd + nl;
    let x3 = x2 + et + nl;
    let x4 = x3 + eh + nl;
    assert(t =~= x0 + d + nl + (sd + nl + et + nl + eh + nl + pl));
    lemma_line(x0, d, sd + nl + et + nl + eh + nl + pl);
    assert(t =~= x1 + sd + nl + (et + nl + eh + nl + pl));
    lemma_line(x1, sd, et + nl + eh + nl + pl);
    assert(t =~= x2 + et + nl + (eh + nl + pl));
    lemma_line(x2, et, eh + nl + pl);
    assert(t =~= x3 + eh + nl + pl);
    lemma_line(x3, eh, pl);
    assert(t =~= x4 + pl);
    lemma_decode_page_lines(x4, pages);
}

// ---- the work record

/// What is kept on disk for a work: its id and its title, refreshed from
/// the catalog on each fetch.
pub struct WorkRecord {
    pub id: u32,
    pub title: String,
}

/// The work file: the id, then the title, each line ending in a line break.
pub open spec fn work_text(id: u32, title: Seq<char>) -> Seq<char> {
    decimal_digits(id as nat) + seq!['\n'] + escaped(title) + seq!['\n']
}

/// A work file read back: an id line and a title line, and nothing after.
pub open spec fn decoded_work(t: Seq<char>) -> Option<(u32, Seq<char>)> {
    let e0 = line_len(t, 0) as int;
    let e1 = e0 + 1 + line_len(t, e0 + 1);
    if e1 + 1 == t.len() {
        match (parse_u32(t.subrange(0, e0)), unescaped(t.subrange(e0 + 1, e1))) {
            (Some(id), Some(title)) => Some((id, title)),
            _ => None,
        }
    } else {
        None
    }
}

/// The text of the work file for `w`.
pub fn encode_work(w: &WorkRecord) -> (s: String)
    ensures
        s@ == work_text(w.id, w.title@),
{
    let mut s = String::new();
    push_decimal(&mut s, w.id as u64);
    push_newline(&mut s);
    push_escaped(&mut s, w.title.as_str());
    push_newline(&mut s);
    assert(s@ =~= work_text(w.id, w.title@));
    s
}

/// Reads a work file back; `None` where it does not hold exactly an id line
/// and a title line.
pub fn decode_work(text: &str) -> (r: Option<WorkRecord>)
    ensures
        r is Some <==> decoded_work(text@) is Some,
        r is Some ==> (r->0.id, r->0.title@) == decoded_work(text@)->0,
{
    let t = chars_of(text);
    let e0 = line_end(&t, 0);
    if e0 >= t.len() {
        return None;
    }
    let e1 = line_end(&t, e0 + 1);
    if e1 >= t.len() || e1 + 1 != t.len() {
        return None;
    }
    match (parse_u32_in(&t, 0, e0), unescape_in(text, &t, e0 + 1, e1)) {
        (Some(id), Some(title)) => Some(WorkRecord { id, title }),
        _ => None,
    }
}

/// What is written for a work reads back as the same work.
pub proof fn lemma_work_round_trip(id: u32, title: Seq<char>)
    ensures
        decoded_work(work_text(id, title)) == Some((id, title)),
{
    let t = work_text(id, title);
    let nl = seq!['\n'];
    let d = decimal_digits(id as nat);
    let et = escaped(title);
    lemma_number_lines(id, 0);
    lemma_escaped_no_newline(title);
    lemma_unescape_escaped(title);
    let x0 = Seq::<char>::empty();
    assert(t =~= x0 + d + nl + (et + nl));
    lemma_line(x0, d, et + nl);
    assert(t =~= (d + nl) + et + nl + Seq::<char>::empty());
    lemma_line(d + nl, et, Seq::<char>::empty());
}

/// Saving is idempotent: with the files of a cache seen as a map from path
/// to content, writing an episode's index twice in a row leaves the same
/// files as writing it once, and a reader after either write gets the
/// record back.
pub proof fn lemma_save_idempotent(files: Map<Seq<char>, Seq<char>>, path: Seq<char>, m: IndexModel)
    ensures
        files.insert(path, index_text(m)).insert(path, index_text(m)) == files.insert(path, index_text(m)),
        decoded_index(files.insert(path, index_text(m))[path]) == Some(m),
{
    assert_maps_equal!(files.insert(path, index_text(m)).insert(path, index_text(m)), files.insert(path, index_text(m)));
    lemma_index_round_trip(m);
}

} // verus!
