use manga_viewer::chunk::{Chunk, Rect};
use manga_viewer::image::GrayImage;
use manga_viewer::segment::{get_chunks_from_image, white_strip_map, MIN_CHUNK_HEIGHT};

/// An image whose rows are white (255) or dark (0), as `dark` says.
fn striped(width: usize, dark: &[bool]) -> GrayImage {
    let mut luma = Vec::new();
    for &d in dark {
        for _ in 0..width {
            luma.push(if d { 0u8 } else { 255u8 });
        }
    }
    GrayImage::new(width, dark.len(), luma).unwrap()
}

fn rows(spec: &[(bool, usize)]) -> Vec<bool> {
    let mut out = Vec::new();
    for &(dark, n) in spec {
        for _ in 0..n {
            out.push(dark);
        }
    }
    out
}

fn chunk(y: usize, width: usize, height: usize) -> Chunk {
    Chunk { rect: Rect { x: 0, y, width, height }, texture_index: 0 }
}

#[test]
fn all_white_page_has_no_chunks() {
    let img = striped(8, &rows(&[(false, 40)]));
    assert!(get_chunks_from_image(&img).is_empty());
}

#[test]
fn full_bleed_page_is_one_chunk() {
    let img = striped(8, &rows(&[(true, 30)]));
    assert_eq!(get_chunks_from_image(&img), vec![chunk(0, 8, 30)]);
}

#[test]
fn two_panels_split_by_blank_band() {
    let img = striped(5, &rows(&[(true, 20), (false, 10), (true, 25)]));
    let chunks = get_chunks_from_image(&img);
    assert_eq!(chunks, vec![chunk(0, 5, 20), chunk(30, 5, 25)]);
    assert_eq!(chunks[0].rect.height + chunks[1].rect.height, 55 - 10);
    assert_eq!(chunks[1].rect.y - (chunks[0].rect.y + chunks[0].rect.height), 10);
}

#[test]
fn thin_runs_are_dropped() {
    // A run of exactly MIN_CHUNK_HEIGHT rows is not kept; one more is.
    let img = striped(
        3,
        &rows(&[(false, 2), (true, MIN_CHUNK_HEIGHT), (false, 3), (true, MIN_CHUNK_HEIGHT + 1), (false, 1)]),
    );
    assert_eq!(get_chunks_from_image(&img), vec![chunk(2 + MIN_CHUNK_HEIGHT + 3, 3, MIN_CHUNK_HEIGHT + 1)]);
}

#[test]
fn margins_above_and_below_are_excluded() {
    let img = striped(4, &rows(&[(false, 3), (true, 12), (false, 4)]));
    assert_eq!(get_chunks_from_image(&img), vec![chunk(3, 4, 12)]);
}

#[test]
fn one_dark_pixel_makes_a_row_non_white() {
    let width = 6;
    let mut luma = vec![255u8; width * 10];
    luma[4 * width + 5] = 249;
    let img = GrayImage::new(width, 10, luma).unwrap();
    let map = white_strip_map(&img);
    assert_eq!(map.iter().filter(|w| !**w).count(), 1);
    assert!(!map[4]);
    let mut luma = vec![255u8; width * 10];
    luma[4 * width + 5] = 250;
    let img = GrayImage::new(width, 10, luma).unwrap();
    assert!(white_strip_map(&img).iter().all(|w| *w));
}

#[test]
fn segmenting_twice_gives_the_same_chunks() {
    let img = striped(7, &rows(&[(true, 9), (false, 2), (true, 14), (false, 6), (true, 8)]));
    assert_eq!(get_chunks_from_image(&img), get_chunks_from_image(&img));
}

#[test]
fn chunks_cover_non_white_rows_in_order() {
    let pattern = rows(&[(false, 1), (true, 9), (false, 2), (true, 3), (false, 1), (true, 14), (false, 6), (true, 8)]);
    let img = striped(2, &pattern);
    let chunks = get_chunks_from_image(&img);
    for pair in chunks.windows(2) {
        assert!(pair[0].rect.y + pair[0].rect.height < pair[1].rect.y);
    }
    for c in &chunks {
        assert!(c.rect.height > MIN_CHUNK_HEIGHT);
        for y in c.rect.y..c.rect.y + c.rect.height {
            assert!(pattern[y]);
        }
    }
    // The 3-row run is the one dark stretch no chunk covers.
    let covered: usize = chunks.iter().map(|c| c.rect.height).sum();
    let dark = pattern.iter().filter(|d| **d).count();
    assert_eq!(dark - covered, 3);
}

#[test]
fn empty_image_has_no_chunks() {
    let img = GrayImage::new(0, 0, Vec::new()).unwrap();
    assert!(get_chunks_from_image(&img).is_empty());
    let img = GrayImage::new(0, 12, Vec::new()).unwrap();
    assert!(get_chunks_from_image(&img).is_empty());
}

#[test]
fn image_buffer_must_match_dimensions() {
    assert!(GrayImage::new(3, 2, vec![0u8; 5]).is_none());
    assert!(GrayImage::new(3, 2, vec![0u8; 6]).is_some());
    assert!(GrayImage::new(0, 2, vec![0u8; 1]).is_none());
}
