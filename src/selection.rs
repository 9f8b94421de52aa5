use vstd::prelude::*;

verus! {

/// One episode of a work's catalog, as selection sees it. The ordinal is
/// kept in thousandths (`1500` for "1.5"), so fractional side chapters order
/// exactly.
#[derive(Clone, Copy, Debug, PartialEq, Eq, Structural)]
pub struct EpisodeEntry {
    pub id: u32,
    pub ord_milli: i64,
    pub locked: bool,
    /// A cached record exists for the episode and no page of it remains.
    pub downloaded: bool,
}

/// Whether an episode's ordinal lies within `from` and `to` (in
/// thousandths; `to <= 0` leaves the upper end open).
pub open spec fn in_bounds(e: EpisodeEntry, from: i64, to: i64) -> bool {
    e.ord_milli >= from && (to <= 0 || e.ord_milli <= to)
}

/// Whether an episode is to be fetched: unlocked, within the bounds, and
/// not yet fully downloaded.
pub open spec fn eligible(e: EpisodeEntry, from: i64, to: i64) -> bool {
    !e.locked && in_bounds(e, from, to) && !e.downloaded
}

/// Whether an episode can be exported: fully downloaded and within the
/// bounds.
pub open spec fn exportable(e: EpisodeEntry, from: i64, to: i64) -> bool {
    e.downloaded && in_bounds(e, from, to)
}

/// What a selection looks for: episodes to export, or episodes to fetch.
pub open spec fn wanted(e: EpisodeEntry, from: i64, to: i64, export: bool) -> bool {
    if export { exportable(e, from, to) } else { eligible(e, from, to) }
}

/// Episode `a` comes before episode `b`: a smaller ordinal, or the same
/// ordinal and an earlier place in the catalog.
pub open spec fn comes_before(eps: Seq<EpisodeEntry>, a: int, b: int) -> bool {
    eps[a].ord_milli < eps[b].ord_milli || (eps[a].ord_milli == eps[b].ord_milli && a < b)
}

/// `sel` lists exactly the wanted positions of `eps`, each once, by
/// ascending ordinal (ties in catalog order).
pub open spec fn is_selection(eps: Seq<EpisodeEntry>, from: i64, to: i64, export: bool, sel: Seq<usize>) -> bool {
    &&& forall|k: int| 0 <= k < sel.len() ==> #[trigger] sel[k] < eps.len()
    &&& forall|k: int| 0 <= k < sel.len() ==> wanted(eps[#[trigger] sel[k] as int], from, to, export)
    &&& forall|i: int| 0 <= i < eps.len() && wanted(eps[i], from, to, export) ==> sel.contains(i as usize)
    &&& forall|a: int, b: int|
        0 <= a < b < sel.len() ==> comes_before(eps, #[trigger] sel[a] as int, #[trigger] sel[b] as int)
}

/// The positions of the episodes to fetch: unlocked, with an ordinal within
/// the bounds, and not yet fully downloaded; sorted by ascending ordinal,
/// keeping catalog order among equal ordinals.
pub fn select_episodes(eps: &Vec<EpisodeEntry>, from: i64, to: i64) -> (r: Vec<usize>)
    ensures
        is_selection(eps@, from, to, false, r@),
{
    select_wanted(eps, from, to, false)
}

/// The positions of the episodes that can be exported: fully downloaded,
/// with an ordinal within the bounds, whether locked or not; sorted as
/// `select_episodes` sorts.
pub fn select_exportable(eps: &Vec<EpisodeEntry>, from: i64, to: i64) -> (r: Vec<usize>)
    ensures
        is_selection(eps@, from, to, true, r@),
{
    select_wanted(eps, from, to, true)
}

fn select_wanted(eps: &Vec<EpisodeEntry>, from: i64, to: i64, export: bool) -> (r: Vec<usize>)
    ensures
        is_selection(eps@, from, to, export, r@),
{
    let mut r: Vec<usize> = Vec::new();
    for i in 0..eps.len()
        invariant
            forall|k: int| 0 <= k < r.len() ==> #[trigger] r[k] < i,
            forall|k: int| 0 <= k < r.len() ==> wanted(eps@[#[trigger] r[k] as int], from, to, export),
            forall|j: int| 0 <= j < i && wanted(eps@[j], from, to, export) ==> r@.contains(j as usize),
            forall|a: int, b: int|
                0 <= a < b < r.len() ==> comes_before(eps@, #[trigger] r[a] as int, #[trigger] r[b] as int),
    {
        let e = eps[i];
        let within = e.ord_milli >= from && (to <= 0 || e.ord_milli <= to);
        let take = if export { e.downloaded && within } else { !e.locked && within && !e.downloaded };
        if take {
            let mut p: usize = r.len();
            while p > 0 && eps[r[p - 1]].ord_milli > e.ord_milli
                invariant
                    p <= r.len(),
                    i < eps.len(),
                    e == eps@[i as int],
                    forall|k: int| 0 <= k < r.len() ==> #[trigger] r[k] < i,
                    forall|k: int| p <= k < r.len() ==> eps@[#[trigger] r[k] as int].ord_milli > e.ord_milli,
                decreases p,
            {
                p = p - 1;
            }
            let ghost before = r@;
            proof {
                if p > 0 {
                    assert forall|k: int| 0 <= k < p implies comes_before(eps@, #[trigger] r[k] as int, i as int) by {
                        if k < p - 1 {
                            assert(comes_before(eps@, r[k] as int, r[p - 1] as int));
                        }
                    }
                }
            }
            r.insert(p, i);
            proof {
                assert forall|j: int| 0 <= j <= i && wanted(eps@[j], from, to, export) implies r@.contains(j as usize) by {
                    if j < i {
                        let k = choose|k: int| 0 <= k < before.len() && before[k] == j as usize;
                        if k < p {
                            assert(r@[k] == j as usize);
                        } else {
                            assert(r@[k + 1] == j as usize);
                        }
                    } else {
                        assert(r@[p as int] == i);
                    }
                }
            }
        }
    }
    r
}

} // verus!
