use comic_cache::{select_episodes, EpisodeEntry};

fn entry(id: u32, ord_milli: i64, locked: bool, downloaded: bool) -> EpisodeEntry {
    EpisodeEntry { id, ord_milli, locked, downloaded }
}

#[test]
fn locked_and_below_lower_bound_are_left_out() {
    let eps = vec![
        entry(11, 1000, false, false),
        entry(12, 2000, false, false),
        entry(13, 2500, true, false),
        entry(14, 3000, false, false),
    ];
    let sel = select_episodes(&eps, 1500, 3000);
    let ids: Vec<u32> = sel.iter().map(|&i| eps[i].id).collect();
    assert_eq!(ids, vec![12, 14]);
}

#[test]
fn nonpositive_upper_bound_is_open() {
    let eps = vec![entry(1, 5000, false, false), entry(2, 1000, false, false)];
    assert_eq!(select_episodes(&eps, 0, 0), vec![1, 0]);
    assert_eq!(select_episodes(&eps, 0, -1), vec![1, 0]);
    assert_eq!(select_episodes(&eps, 0, 2000), vec![1]);
}

#[test]
fn downloaded_episodes_are_left_out() {
    let eps = vec![entry(1, 1000, false, true), entry(2, 2000, false, false)];
    assert_eq!(select_episodes(&eps, 0, 0), vec![1]);
}

#[test]
fn equal_ordinals_keep_catalog_order() {
    let eps = vec![
        entry(1, 3000, false, false),
        entry(2, 1000, false, false),
        entry(3, 1000, false, false),
        entry(4, 1500, false, false),
    ];
    assert_eq!(select_episodes(&eps, 0, 0), vec![1, 2, 3, 0]);
}

#[test]
fn nothing_eligible_gives_empty_selection() {
    assert!(select_episodes(&vec![], 0, 0).is_empty());
    let eps = vec![entry(1, 1000, true, false)];
    assert!(select_episodes(&eps, 0, 0).is_empty());
}

#[test]
fn export_takes_downloaded_episodes_in_bounds() {
    let eps = vec![
        entry(1, 3000, false, true),
        entry(2, 1000, true, true),
        entry(3, 2000, false, false),
        entry(4, 500, false, true),
    ];
    assert_eq!(comic_cache::select_exportable(&eps, 800, 0), vec![1, 0]);
    assert_eq!(comic_cache::select_exportable(&eps, 0, 2000), vec![3, 1]);
}
