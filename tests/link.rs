use comic_cache::parse_id_or_link;

#[test]
fn plain_number_is_the_id() {
    assert_eq!(parse_id_or_link("26742".to_string()), Some(26742));
    assert_eq!(parse_id_or_link("+7".to_string()), Some(7));
    assert_eq!(parse_id_or_link("4294967295".to_string()), Some(u32::MAX));
}

#[test]
fn link_id_follows_mc() {
    assert_eq!(parse_id_or_link("https://manga.example.com/detail/mc26742?from=x".to_string()), Some(26742));
    assert_eq!(parse_id_or_link("mc123/mc456".to_string()), Some(123));
}

#[test]
fn invalid_inputs_give_none() {
    assert_eq!(parse_id_or_link("".to_string()), None);
    assert_eq!(parse_id_or_link("abc".to_string()), None);
    assert_eq!(parse_id_or_link("4294967296".to_string()), None);
    assert_eq!(parse_id_or_link("https://x/mc".to_string()), None);
    assert_eq!(parse_id_or_link("mcabc".to_string()), None);
    assert_eq!(parse_id_or_link("-5".to_string()), None);
}

#[test]
fn non_ascii_numerals_after_mc_do_not_read() {
    assert_eq!(parse_id_or_link("mc١٢٣".to_string()), None);
    assert_eq!(parse_id_or_link("mc12٣".to_string()), None);
    assert_eq!(parse_id_or_link("mc12x٣".to_string()), Some(12));
}

#[test]
fn query_after_link_id_is_ignored() {
    assert_eq!(parse_id_or_link("https://manga.example.com/mc28284?from=x".to_string()), Some(28284));
}
