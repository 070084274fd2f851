use manga_viewer::listing::{is_page_file, page_files};

#[test]
fn only_jpg_and_png_are_pages() {
    assert!(is_page_file(&"dir/001.jpg".to_string()));
    assert!(is_page_file(&"002.png".to_string()));
    assert!(!is_page_file(&"notes.txt".to_string()));
    assert!(!is_page_file(&"cover.jpeg".to_string()));
    assert!(!is_page_file(&"jpg".to_string()));
}

#[test]
fn pages_are_sorted_by_name() {
    let entries = vec![
        "b/03.png".to_string(),
        "b/info.txt".to_string(),
        "b/01.jpg".to_string(),
        "b/02.jpg".to_string(),
        "b/01.jpg.bak".to_string(),
    ];
    assert_eq!(page_files(entries), vec!["b/01.jpg".to_string(), "b/02.jpg".to_string(), "b/03.png".to_string()]);
}

#[test]
fn empty_listing_has_no_pages() {
    assert!(page_files(Vec::new()).is_empty());
}
