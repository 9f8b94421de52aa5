use comic_cache::{decode_index, decode_work, encode_index, encode_work, EpisodeIndex, WorkRecord};

fn sample() -> EpisodeIndex {
    EpisodeIndex {
        id: 4021,
        ord_milli: 1500,
        title: "Side story: \\ and\nmore".to_string(),
        host: "https://img.example.com".to_string(),
        pages: vec!["/bfs/a/1.jpg".to_string(), "/bfs/a/2.jpg".to_string()],
    }
}

#[test]
fn index_text_layout() {
    assert_eq!(
        encode_index(&sample()),
        "4021\n1500\nSide story: \\\\ and\\nmore\nhttps://img.example.com\n/bfs/a/1.jpg\n/bfs/a/2.jpg\n"
    );
}

#[test]
fn index_reads_back_unchanged() {
    let r = sample();
    let back = decode_index(&encode_index(&r)).expect("reads back");
    assert_eq!(back.id, r.id);
    assert_eq!(back.ord_milli, r.ord_milli);
    assert_eq!(back.title, r.title);
    assert_eq!(back.host, r.host);
    assert_eq!(back.pages, r.pages);
}

#[test]
fn saving_twice_writes_the_same_text() {
    let r = sample();
    assert_eq!(encode_index(&r), encode_index(&r));
}

#[test]
fn negative_and_extreme_ordinals_read_back() {
    for ord in [0, -2500, i64::MIN, i64::MAX] {
        let r = EpisodeIndex { id: u32::MAX, ord_milli: ord, title: String::new(), host: String::new(), pages: vec![] };
        let text = encode_index(&r);
        let back = decode_index(&text).expect("reads back");
        assert_eq!(back.ord_milli, ord);
        assert_eq!(back.id, u32::MAX);
        assert!(back.pages.is_empty());
    }
    assert_eq!(encode_index(&EpisodeIndex {
        id: 0, ord_milli: -2500, title: String::new(), host: String::new(), pages: vec![],
    }), "0\n-2500\n\n\n");
}

#[test]
fn damaged_index_text_is_refused() {
    assert!(decode_index("").is_none());
    assert!(decode_index("1\n2\ntitle\n").is_none());
    assert!(decode_index("x\n2\ntitle\nhost\n").is_none());
    assert!(decode_index("1\n2.5\ntitle\nhost\n").is_none());
    assert!(decode_index("1\n2\nbad \\q escape\nhost\n").is_none());
    assert!(decode_index("1\n2\ntitle\nhost\n/p/1.jpg").is_none());
    assert!(decode_index("1\n2\ntitle\nhost\n").is_some());
}

#[test]
fn work_record_reads_back() {
    let w = WorkRecord { id: 26742, title: "A\\B\nC".to_string() };
    let text = encode_work(&w);
    assert_eq!(text, "26742\nA\\\\B\\nC\n");
    let back = decode_work(&text).expect("reads back");
    assert_eq!(back.id, 26742);
    assert_eq!(back.title, "A\\B\nC");
    assert!(decode_work("26742\ntitle\nextra\n").is_none());
    assert!(decode_work("26742\ntitle").is_none());
    assert!(decode_work("").is_none());
}
