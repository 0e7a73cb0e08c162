use card_reader::diag::NoDiag;
use card_reader::find_chunks;
use card_reader::grid::PixelGrid;
use card_reader::morphology::{dilate, erode};
use card_reader::rect::RegionRect;
use card_reader::ReadError;

const LIGHT: u8 = 230;
const DARK: u8 = 50;

fn fill_rect(g: &mut PixelGrid, x0: usize, y0: usize, w: usize, h: usize, v: u8) {
    for y in y0..y0 + h {
        for x in x0..x0 + w {
            g.set_px(x, y, v);
        }
    }
}

#[test]
fn two_cards_found_exactly() {
    let mut scan = PixelGrid::new_filled(300, 200, LIGHT);
    fill_rect(&mut scan, 30, 30, 60, 80, DARK);
    fill_rect(&mut scan, 170, 60, 70, 90, DARK);
    let rois = find_chunks(&scan, None::<&NoDiag>).unwrap();
    assert_eq!(rois.len(), 2);
    assert_eq!(rois[0], RegionRect { x: 30, y: 30, width: 60, height: 80 });
    assert_eq!(rois[1], RegionRect { x: 170, y: 60, width: 70, height: 90 });
}

#[test]
fn found_regions_satisfy_containment() {
    let mut scan = PixelGrid::new_filled(250, 180, LIGHT);
    fill_rect(&mut scan, 20, 25, 50, 70, DARK);
    fill_rect(&mut scan, 120, 40, 80, 100, DARK);
    let rois = find_chunks(&scan, None::<&NoDiag>).unwrap();
    assert_eq!(rois.len(), 2);
    for roi in &rois {
        assert!(roi.is_valid_for(250, 180));
    }
}

#[test]
fn small_speck_is_removed_by_opening() {
    let mut scan = PixelGrid::new_filled(200, 150, LIGHT);
    fill_rect(&mut scan, 30, 30, 60, 60, DARK);
    fill_rect(&mut scan, 150, 100, 5, 5, DARK);
    let rois = find_chunks(&scan, None::<&NoDiag>).unwrap();
    assert_eq!(rois.len(), 1);
    assert_eq!(rois[0], RegionRect { x: 30, y: 30, width: 60, height: 60 });
}

#[test]
fn kernel_sized_mark_is_never_missed() {
    let mut scan = PixelGrid::new_filled(80, 80, LIGHT);
    fill_rect(&mut scan, 30, 30, 15, 15, DARK);
    let rois = find_chunks(&scan, None::<&NoDiag>).unwrap();
    assert_eq!(rois.len(), 1);
    assert_eq!(rois[0], RegionRect { x: 30, y: 30, width: 15, height: 15 });
}

#[test]
fn blank_scan_yields_no_regions() {
    let scan = PixelGrid::new_filled(120, 90, LIGHT);
    let rois = find_chunks(&scan, None::<&NoDiag>).unwrap();
    assert!(rois.is_empty());
}

#[test]
fn zero_area_scan_is_rejected() {
    let scan = PixelGrid::new_filled(0, 25, LIGHT);
    assert_eq!(find_chunks(&scan, None::<&NoDiag>).unwrap_err(), ReadError::EmptyScan);
    let scan = PixelGrid::new_filled(25, 0, LIGHT);
    assert_eq!(find_chunks(&scan, None::<&NoDiag>).unwrap_err(), ReadError::EmptyScan);
}

#[test]
fn erode_clears_isolated_cell() {
    let mut g = PixelGrid::new_filled(5, 5, 0);
    g.set_px(2, 2, 255);
    let e = erode(&g, 1);
    for y in 0..5 {
        for x in 0..5 {
            assert_eq!(e.get_px(x, y), 0);
        }
    }
}

#[test]
fn dilate_grows_isolated_cell() {
    let mut g = PixelGrid::new_filled(5, 5, 0);
    g.set_px(2, 2, 255);
    let d = dilate(&g, 1);
    for y in 0..5 {
        for x in 0..5 {
            let inside = (1..=3).contains(&x) && (1..=3).contains(&y);
            assert_eq!(d.get_px(x, y), if inside { 255 } else { 0 });
        }
    }
}

#[test]
fn opening_restores_rectangle_away_from_border() {
    let mut g = PixelGrid::new_filled(60, 50, 0);
    fill_rect(&mut g, 10, 10, 20, 25, 255);
    let opened = dilate(&erode(&g, 7), 7);
    for y in 0..50 {
        for x in 0..60 {
            let inside = (10..30).contains(&x) && (10..35).contains(&y);
            assert_eq!(opened.get_px(x, y), if inside { 255 } else { 0 });
        }
    }
}
