use backend::models::{uuid_to_string, Article, Collection};

#[test]
fn identifier_text_is_hyphenated_lowercase() {
    let id: u128 = 0x67e5_5044_10b1_426f_9247_bb68_0e5f_e0c8;
    assert_eq!(uuid_to_string(id), "67e55044-10b1-426f-9247-bb680e5fe0c8");
    assert_eq!(uuid_to_string(0), "00000000-0000-0000-0000-000000000000");
    assert_eq!(uuid_to_string(u128::MAX), "ffffffff-ffff-ffff-ffff-ffffffffffff");
}

#[test]
fn new_records_get_random_identifiers() {
    let c = Collection::new("n".into(), None, "s".into(), "h".into());
    let a = Article::new(c.id, "h".into(), Some("x".into()), "t".into(), "s".into(), None);
    for id in [c.id, a.id] {
        assert_eq!((id >> 76) & 0xf, 4);
        assert_eq!((id >> 62) & 0x3, 2);
    }
    assert_eq!(a.collection_id, c.id);
    assert_ne!(a.id, c.id);
}
