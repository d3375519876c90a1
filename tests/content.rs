use server_tan::content::ContentInterface;
use server_tan::error::DirError;

const MARCH_10_2024: i32 = 738955;

#[test]
fn content_round_trip() {
    let mut store = ContentInterface::new(3);
    for body in ["hello", "", "通知：服务器已重启 ✓", "line1\nline2"] {
        let id = store.add_content(body).unwrap();
        assert_eq!(id.len(), 32);
        assert_eq!(store.get_content(&id), Ok(body.to_string()));
    }
    assert_eq!(store.get_content("missing"), Err(DirError::NotFound));
}

#[test]
fn expiry_boundary_four_and_two_days() {
    let mut store = ContentInterface::new(3);
    assert_eq!(store.add_content_on("old".to_string(), MARCH_10_2024 - 4, "from march 6"), Ok(()));
    assert_eq!(store.add_content_on("cut".to_string(), MARCH_10_2024 - 3, "from march 7"), Ok(()));
    assert_eq!(store.add_content_on("new".to_string(), MARCH_10_2024 - 2, "from march 8"), Ok(()));
    store.clean_contents_on(MARCH_10_2024);
    assert_eq!(store.get_content("old"), Err(DirError::NotFound));
    assert_eq!(store.get_content("cut"), Ok("from march 7".to_string()));
    assert_eq!(store.get_content("new"), Ok("from march 8".to_string()));
}

#[test]
fn one_sweep_per_day() {
    let mut store = ContentInterface::new(1);
    assert_eq!(store.add_content_on("a".to_string(), 100, "a"), Ok(()));
    store.clean_contents_on(105);
    assert!(store.get_content("a").is_err());
    assert_eq!(store.add_content_on("b".to_string(), 100, "b"), Ok(()));
    store.clean_contents_on(105);
    assert_eq!(store.get_content("b"), Ok("b".to_string()));
    store.clean_contents_on(106);
    assert!(store.get_content("b").is_err());
}

#[test]
fn zero_retention_never_sweeps() {
    let mut store = ContentInterface::new(0);
    assert_eq!(store.add_content_on("a".to_string(), 1, "a"), Ok(()));
    store.clean_contents_on(1000);
    store.clean_contents();
    assert_eq!(store.get_content("a"), Ok("a".to_string()));
}

#[test]
fn same_day_content_shares_a_bucket() {
    let mut store = ContentInterface::new(2);
    assert_eq!(store.add_content_on("a".to_string(), 10, "a"), Ok(()));
    assert_eq!(store.add_content_on("b".to_string(), 11, "b"), Ok(()));
    assert_eq!(store.add_content_on("c".to_string(), 10, "c"), Ok(()));
    store.clean_contents_on(13);
    assert!(store.get_content("a").is_err());
    assert!(store.get_content("c").is_err());
    assert_eq!(store.get_content("b"), Ok("b".to_string()));
}

#[test]
fn content_id_in_use_is_refused() {
    let mut store = ContentInterface::new(3);
    assert_eq!(store.add_content_on("a".to_string(), 5, "first"), Ok(()));
    assert_eq!(store.add_content_on("a".to_string(), 6, "second"), Err(DirError::AlreadyExists));
    assert_eq!(store.get_content("a"), Ok("first".to_string()));
    store.clean_contents_on(8);
    assert_eq!(store.get_content("a"), Ok("first".to_string()));
    store.clean_contents_on(9);
    assert_eq!(store.get_content("a"), Err(DirError::NotFound));
}
