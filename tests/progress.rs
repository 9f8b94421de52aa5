use comic_cache::{file_name_of, is_complete, page_file_names, remaining_pages};

fn pages(v: &[&str]) -> Vec<String> {
    v.iter().map(|s| s.to_string()).collect()
}

#[test]
fn file_name_is_last_path_segment() {
    assert_eq!(file_name_of("/bfs/manga/123/abc.jpg"), "abc.jpg");
    assert_eq!(file_name_of("plain.png"), "plain.png");
    assert_eq!(file_name_of("dir/"), "");
    assert_eq!(file_name_of(""), "");
    assert_eq!(file_name_of("a/b/页面.webp"), "页面.webp");
}

#[test]
fn file_names_follow_page_order() {
    let p = pages(&["/x/1.jpg", "/y/2.jpg", "3.jpg"]);
    assert_eq!(page_file_names(&p), pages(&["1.jpg", "2.jpg", "3.jpg"]));
}

#[test]
fn remaining_skips_present_pages_in_order() {
    let p = pages(&["/a/1.jpg", "/a/2.jpg", "/a/3.jpg", "/a/4.jpg"]);
    let sizes = vec![10, 0, 5, 0];
    assert_eq!(remaining_pages(&p, &sizes), pages(&["/a/2.jpg", "/a/4.jpg"]));
}

#[test]
fn remaining_is_everything_on_empty_disk() {
    let p = pages(&["/a/1.jpg", "/a/2.jpg"]);
    assert_eq!(remaining_pages(&p, &vec![0, 0]), p);
    assert_eq!(remaining_pages(&p, &vec![]), p);
}

#[test]
fn remaining_is_empty_when_all_present() {
    let p = pages(&["/a/1.jpg", "/a/2.jpg"]);
    assert!(remaining_pages(&p, &vec![1, 2]).is_empty());
    assert!(is_complete(&p, &vec![1, 2]));
    assert!(!is_complete(&p, &vec![1, 0]));
    assert!(is_complete(&vec![], &vec![]));
}
