use card_reader::diag::NoDiag;
use card_reader::grid::PixelGrid;
use card_reader::locate::find_text_chunks;
use card_reader::ReadError;

#[test]
fn reference_card_regions_match_measurements() {
    let card = PixelGrid::new_filled(732, 1061, 128);
    let chunks = find_text_chunks(&card, None::<&NoDiag>).unwrap();
    assert_eq!(chunks.name.x, 136);
    assert_eq!(chunks.name.y, 62);
    assert_eq!(chunks.name.width, 521);
    assert_eq!(chunks.name.height, 100);
    assert_eq!(chunks.description.x, 62);
    assert_eq!(chunks.description.y, 696);
    assert_eq!(chunks.description.width, 591);
    assert_eq!(chunks.description.height, 167);
}

#[test]
fn regions_satisfy_containment_on_odd_sizes() {
    for (w, h) in [(357usize, 511usize), (2, 11), (97, 1500), (1024, 768)] {
        let card = PixelGrid::new_filled(w, h, 128);
        let chunks = find_text_chunks(&card, None::<&NoDiag>).unwrap();
        assert!(chunks.name.is_valid_for(w, h));
        assert!(chunks.description.is_valid_for(w, h));
    }
}

#[test]
fn locator_is_scale_invariant_within_rounding() {
    let small = PixelGrid::new_filled(300, 450, 128);
    let big = PixelGrid::new_filled(600, 900, 128);
    let s = find_text_chunks(&small, None::<&NoDiag>).unwrap();
    let b = find_text_chunks(&big, None::<&NoDiag>).unwrap();
    let pairs = [
        (s.name.x, b.name.x),
        (s.name.y, b.name.y),
        (s.name.width, b.name.width),
        (s.name.height, b.name.height),
        (s.description.x, b.description.x),
        (s.description.y, b.description.y),
        (s.description.width, b.description.width),
        (s.description.height, b.description.height),
    ];
    for (lo, hi) in pairs {
        assert!(2 * lo <= hi);
        assert!(hi < 2 * lo + 2);
    }
}

#[test]
fn too_small_cards_are_rejected() {
    let tiny = PixelGrid::new_filled(1, 1, 128);
    assert_eq!(find_text_chunks(&tiny, None::<&NoDiag>).unwrap_err(), ReadError::RegionTooSmall);
    let flat = PixelGrid::new_filled(100, 10, 128);
    assert_eq!(find_text_chunks(&flat, None::<&NoDiag>).unwrap_err(), ReadError::RegionTooSmall);
    let narrow = PixelGrid::new_filled(1, 500, 128);
    assert_eq!(
        find_text_chunks(&narrow, None::<&NoDiag>).unwrap_err(),
        ReadError::RegionTooSmall
    );
}
