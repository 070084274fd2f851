use manga_viewer::chunk::{Chunk, Rect};
use manga_viewer::image::GrayImage;
use manga_viewer::metaprovider::MetaProvider;
use manga_viewer::provider::{DirChunkProvider, PathKind, ProviderError};

/// A page with dark bands of the given (top, height), white elsewhere.
fn page(width: usize, height: usize, bands: &[(usize, usize)]) -> GrayImage {
    let mut luma = vec![255u8; width * height];
    for &(top, h) in bands {
        for y in top..top + h {
            for x in 0..width {
                luma[y * width + x] = 10;
            }
        }
    }
    GrayImage::new(width, height, luma).unwrap()
}

fn names(list: &[&str]) -> Vec<String> {
    list.iter().map(|s| s.to_string()).collect()
}

fn open_dir(p: &mut DirChunkProvider<u32>, files: &[&str], cache: Option<Vec<Chunk>>) {
    assert_eq!(p.open("/books/one", PathKind::Directory, names(files), cache), Ok(()));
}

#[test]
fn open_refuses_anything_but_a_directory() {
    let mut p: DirChunkProvider<u32> = DirChunkProvider::new();
    assert_eq!(p.open("/x", PathKind::File, names(&["a.jpg"]), None), Err(ProviderError::CannotOpen));
    assert_eq!(p.open("/x", PathKind::Missing, Vec::new(), None), Err(ProviderError::CannotOpen));
    assert_eq!(p.page_count(), 0);
    assert!(p.can_open(PathKind::Directory));
    assert!(!p.can_open(PathKind::File));
}

#[test]
fn pages_are_segmented_in_order_and_counted_optimistically() {
    let mut p: DirChunkProvider<u32> = DirChunkProvider::new();
    open_dir(&mut p, &["page1.jpg", "page0.jpg", "readme.md"], None);
    assert_eq!(p.page_count(), 2);
    assert_eq!(p.page_file(0), Some(&"page0.jpg".to_string()));
    assert_eq!(p.chunk_count(), 1);
    assert!(!p.done_processing());
    assert_eq!(p.get_chunk(0), None);
    assert_eq!(p.page_needed_for(0), Some(0));

    // A page that is not next in line is cached but not segmented.
    p.insert_page(1, 11, &page(4, 40, &[(0, 40)]));
    assert_eq!(p.chunk_count(), 1);
    assert_eq!(p.page_needed_for(0), Some(0));

    p.insert_page(0, 10, &page(4, 40, &[(0, 10), (20, 20)]));
    assert_eq!(p.chunk_count(), 3);
    assert_eq!(
        p.get_chunk(1),
        Some(Chunk { rect: Rect { x: 0, y: 20, width: 4, height: 20 }, texture_index: 0 })
    );
    assert_eq!(p.page_needed_for(1), None);
    assert_eq!(p.page_needed_for(2), Some(1));

    p.insert_page(1, 11, &page(4, 40, &[(0, 40)]));
    assert!(p.done_processing());
    assert_eq!(p.chunk_count(), 3);
    assert_eq!(p.get_chunk(2).unwrap().texture_index, 1);
    assert_eq!(p.page_needed_for(5), None);
    assert_eq!(p.page_chunk_range(0), Some((0, 2)));
    assert_eq!(p.page_chunk_range(1), Some((2, 3)));
    assert_eq!(p.page_chunk_range(2), None);
    assert_eq!(p.last_queried_chunk(), 2);
}

#[test]
fn all_white_document_ends_with_no_chunks() {
    let mut p: DirChunkProvider<u32> = DirChunkProvider::new();
    open_dir(&mut p, &["only.png"], None);
    assert_eq!(p.chunk_count(), 1);
    p.insert_page(0, 0, &page(5, 30, &[]));
    assert!(p.done_processing());
    assert_eq!(p.chunk_count(), 0);
}

#[test]
fn undecodable_page_is_skipped() {
    let mut p: DirChunkProvider<u32> = DirChunkProvider::new();
    open_dir(&mut p, &["a.jpg", "b.jpg"], None);
    p.skip_page(1);
    assert_eq!(p.page_needed_for(0), Some(0));
    p.skip_page(0);
    assert_eq!(p.page_needed_for(0), Some(1));
    p.insert_page(1, 1, &page(3, 20, &[(2, 15)]));
    assert!(p.done_processing());
    assert_eq!(p.get_chunk(0).unwrap().texture_index, 1);
}

#[test]
fn page_cache_keeps_three_pages_first_in_first_out() {
    let mut p: DirChunkProvider<u32> = DirChunkProvider::new();
    open_dir(&mut p, &["0.jpg", "1.jpg", "2.jpg", "3.jpg"], None);
    let blank = page(2, 2, &[]);
    p.insert_page(0, 100, &blank);
    p.insert_page(1, 101, &blank);
    p.insert_page(2, 102, &blank);
    assert_eq!(p.get_image(0), Some(&100));
    p.insert_page(3, 103, &blank);
    assert_eq!(p.get_image(0), None);
    assert!(p.page_missing(0));
    assert!(!p.page_missing(3));
    assert_eq!(p.get_image(1), Some(&101));
    assert_eq!(p.get_image(3), Some(&103));
    // Outside the document nothing is stored.
    p.insert_page(9, 109, &blank);
    assert_eq!(p.get_image(9), None);
    assert!(!p.page_missing(9));
}

#[test]
fn reopen_with_cache_restores_chunks() {
    let mut first: DirChunkProvider<u32> = DirChunkProvider::new();
    open_dir(&mut first, &["a.jpg", "b.jpg"], None);
    first.insert_page(0, 0, &page(4, 50, &[(0, 10), (30, 20)]));
    first.insert_page(1, 1, &page(4, 50, &[(5, 40)]));
    assert!(first.done_processing());
    let saved = first.all_chunks();
    assert_eq!(saved.len(), 3);
    first.unload();

    let mut again: DirChunkProvider<u32> = DirChunkProvider::new();
    open_dir(&mut again, &["a.jpg", "b.jpg"], Some(saved.clone()));
    assert_eq!(again.all_chunks(), saved);
    assert!(again.done_processing());
    assert_eq!(again.chunk_count(), 3);
    assert_eq!(again.page_needed_for(3), None);
    assert!(again.page_missing(0));
}

#[test]
fn partial_cache_resumes_segmentation_after_it() {
    let cached = vec![Chunk { rect: Rect { x: 0, y: 0, width: 4, height: 9 }, texture_index: 0 }];
    let mut p: DirChunkProvider<u32> = DirChunkProvider::new();
    open_dir(&mut p, &["a.jpg", "b.jpg", "c.jpg"], Some(cached));
    assert_eq!(p.chunk_count(), 2);
    assert_eq!(p.page_needed_for(1), Some(1));
}

#[test]
fn unusable_cache_is_ignored() {
    let bad_page = vec![Chunk { rect: Rect { x: 0, y: 0, width: 4, height: 9 }, texture_index: 5 }];
    let mut p: DirChunkProvider<u32> = DirChunkProvider::new();
    open_dir(&mut p, &["a.jpg", "b.jpg"], Some(bad_page));
    assert_eq!(p.all_chunks(), Vec::new());
    let out_of_order = vec![
        Chunk { rect: Rect { x: 0, y: 0, width: 4, height: 9 }, texture_index: 1 },
        Chunk { rect: Rect { x: 0, y: 0, width: 4, height: 9 }, texture_index: 0 },
    ];
    open_dir(&mut p, &["a.jpg", "b.jpg"], Some(out_of_order));
    assert_eq!(p.chunk_count(), 1);
    assert_eq!(p.page_needed_for(0), Some(0));
}

#[test]
fn unload_clears_an_open_document_only() {
    let mut p: DirChunkProvider<u32> = DirChunkProvider::new();
    p.unload();
    assert_eq!(p.chunk_count(), 0);
    open_dir(&mut p, &["a.jpg"], None);
    p.insert_page(0, 0, &page(2, 20, &[(0, 20)]));
    p.unload();
    assert_eq!(p.page_count(), 0);
    assert_eq!(p.chunk_count(), 0);
    assert_eq!(p.get_image(0), None);
}

#[test]
fn registry_opens_with_a_backend_that_claims_the_path() {
    let mut m: MetaProvider<u32> = MetaProvider::new();
    assert_eq!(m.open("/x.txt", PathKind::File, Vec::new(), None), Err(ProviderError::NoSuitableProvider));
    assert!(!m.can_open(PathKind::Missing));
    assert!(m.can_open(PathKind::Directory));
    assert_eq!(m.chunk_count(), 0);
    assert_eq!(m.open("/b", PathKind::Directory, names(&["1.png"]), None), Ok(()));
    assert_eq!(m.chunk_count(), 1);
    assert!(!m.done_processing());
    m.current_provider_mut().insert_page(0, 5, &page(3, 30, &[(0, 30)]));
    assert_eq!(m.get_chunk(0).unwrap().rect, Rect { x: 0, y: 0, width: 3, height: 30 });
    assert_eq!(m.get_image(0), Some(&5));
    assert!(m.done_processing());
    assert_eq!(m.current_provider().last_queried_chunk(), 0);
    m.unload();
    assert_eq!(m.chunk_count(), 0);
}
