use vstd::prelude::*;

verus! {

/// The final path segment of a page reference: what follows its last `/`,
/// or the whole reference when it holds none.
pub open spec fn last_segment(s: Seq<char>) -> Seq<char>
    decreases s.len(),
{
    if s.len() == 0 {
        s
    } else if s.last() == '/' {
        Seq::empty()
    } else {
        last_segment(s.drop_last()).push(s.last())
    }
}

/// Whether the page at position `i` has a file on disk: its size is known
/// and nonzero.
pub open spec fn page_present(sizes: Seq<u64>, i: int) -> bool {
    0 <= i < sizes.len() && sizes[i] > 0
}

/// The pages of `pages` whose file is not present, in the order given.
pub open spec fn remaining_of(pages: Seq<String>, sizes: Seq<u64>) -> Seq<String>
    decreases pages.len(),
{
    if pages.len() == 0 {
        Seq::empty()
    } else {
        let rest = remaining_of(pages.drop_last(), sizes);
        if page_present(sizes, pages.len() - 1) {
            rest
        } else {
            rest.push(pages.last())
        }
    }
}

proof fn lemma_last_segment_split(s: Seq<char>, p: int)
    requires
        0 <= p <= s.len(),
        p == 0 || s[p - 1] == '/',
        forall|j: int| p <= j < s.len() ==> s[j] != '/',
    ensures
        last_segment(s) == s.subrange(p, s.len() as int),
    decreases s.len(),
{
    if s.len() == p {
        if p > 0 {
            assert(last_segment(s) == Seq::<char>::empty());
        }
        assert(s.subrange(p, s.len() as int) =~= Seq::<char>::empty());
    } else {
        lemma_last_segment_split(s.drop_last(), p);
        assert(s.subrange(p, s.len() as int) =~= s.drop_last().subrange(p, s.len() - 1).push(
            s.last(),
        ));
    }
}

/// The local file name of a page: the final path segment of its reference.
pub fn file_name_of(page: &str) -> (r: String)
    ensures
        r@ == last_segment(page@),
{
    let n = page.unicode_len();
    let mut p: usize = n;
    while p > 0 && page.get_char(p - 1) != '/'
        invariant
            n == page@.len(),
            p <= n,
            forall|j: int| p <= j < n ==> page@[j] != '/',
        decreases p,
    {
        p = p - 1;
    }
    proof {
        lemma_last_segment_split(page@, p as int);
    }
    page.substring_char(p, n).to_owned()
}

/// The local file names of every page of an episode, in page order: the
/// files whose sizes decide what remains to be fetched.
pub fn page_file_names(pages: &Vec<String>) -> (r: Vec<String>)
    ensures
        r.len() == pages.len(),
        forall|i: int| 0 <= i < pages.len() ==> #[trigger] r[i]@ == last_segment(pages[i]@),
{
    let mut r: Vec<String> = Vec::new();
    for i in 0..pages.len()
        invariant
            r.len() == i,
            forall|j: int| 0 <= j < i ==> #[trigger] r[j]@ == last_segment(pages[j]@),
    {
        r.push(file_name_of(pages[i].as_str()));
    }
    r
}

/// The pages still to fetch: those of `pages`, in order, whose file on disk is
/// missing or empty. `sizes[i]` is the size of the file of `pages[i]`; a page
/// beyond the end of `sizes` counts as missing.
pub fn remaining_pages(pages: &Vec<String>, sizes: &Vec<u64>) -> (r: Vec<String>)
    ensures
        r@ == remaining_of(pages@, sizes@),
{
    let mut r: Vec<String> = Vec::new();
    for i in 0..pages.len()
        invariant
            r@ == remaining_of(pages@.subrange(0, i as int), sizes@),
    {
        proof {
            assert(pages@.subrange(0, i + 1).drop_last() =~= pages@.subrange(0, i as int));
        }
        if !(i < sizes.len() && sizes[i] > 0) {
            r.push(pages[i].clone());
        }
    }
    assert(pages@.subrange(0, pages.len() as int) =~= pages@);
    r
}

/// Whether every page of an episode has a nonempty file on disk.
pub fn is_complete(pages: &Vec<String>, sizes: &Vec<u64>) -> (r: bool)
    ensures
        r == (remaining_of(pages@, sizes@).len() == 0),
{
    remaining_pages(pages, sizes).len() == 0
}

/// Resume correctness: when the pages with a nonempty file are exactly those
/// of a set `done` drawn from the expected sequence, what remains is the
/// expected sequence without `done`, in the order given.
pub proof fn lemma_remaining_is_difference(pages: Seq<String>, done: Set<String>, sizes: Seq<u64>)
    requires
        sizes.len() == pages.len(),
        forall|i: int| 0 <= i < pages.len() ==> (sizes[i] > 0 <==> done.contains(pages[i])),
    ensures
        remaining_of(pages, sizes) == pages.filter(|p: String| !done.contains(p)),
    decreases pages.len(),
{
    reveal(Seq::filter);
    if pages.len() > 0 {
        let prefix = pages.drop_last();
        let shorter = sizes.drop_last();
        lemma_remaining_is_difference(prefix, done, shorter);
        lemma_remaining_any_sizes(prefix, sizes, shorter);
    }
}

proof fn lemma_remaining_any_sizes(pages: Seq<String>, a: Seq<u64>, b: Seq<u64>)
    requires
        pages.len() <= a.len(),
        pages.len() <= b.len(),
        forall|i: int| 0 <= i < pages.len() ==> a[i] == b[i],
    ensures
        remaining_of(pages, a) == remaining_of(pages, b),
    decreases pages.len(),
{
    if pages.len() > 0 {
        lemma_remaining_any_sizes(pages.drop_last(), a, b);
    }
}

} // verus!
