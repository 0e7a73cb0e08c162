use card_reader::grid::{crop, invert, threshold, PixelGrid};
use card_reader::rect::RegionRect;
use card_reader::ReadError;

fn grid_from_rows(width: usize, height: usize, rows: &[&[u8]]) -> PixelGrid {
    let mut g = PixelGrid::new_filled(width, height, 0);
    for (y, row) in rows.iter().enumerate() {
        for (x, v) in row.iter().enumerate() {
            g.set_px(x, y, *v);
        }
    }
    g
}

#[test]
fn new_filled_sets_every_cell() {
    let g = PixelGrid::new_filled(4, 3, 17);
    for y in 0..3 {
        for x in 0..4 {
            assert_eq!(g.get_px(x, y), 17);
        }
    }
}

#[test]
fn set_px_changes_only_one_cell() {
    let mut g = PixelGrid::new_filled(3, 3, 5);
    g.set_px(1, 2, 99);
    assert_eq!(g.get_px(1, 2), 99);
    assert_eq!(g.get_px(0, 0), 5);
    assert_eq!(g.get_px(2, 2), 5);
}

#[test]
fn threshold_is_exact_at_cutoff() {
    let g = grid_from_rows(3, 1, &[&[199, 200, 201]]);
    let t = threshold(&g, 200);
    assert_eq!(t.get_px(0, 0), 0);
    assert_eq!(t.get_px(1, 0), 255);
    assert_eq!(t.get_px(2, 0), 255);
}

#[test]
fn invert_flips_intensities() {
    let g = grid_from_rows(3, 1, &[&[0, 100, 255]]);
    let v = invert(&g);
    assert_eq!(v.get_px(0, 0), 255);
    assert_eq!(v.get_px(1, 0), 155);
    assert_eq!(v.get_px(2, 0), 0);
}

#[test]
fn crop_extracts_expected_cells() {
    let g = grid_from_rows(
        4,
        3,
        &[&[1, 2, 3, 4], &[5, 6, 7, 8], &[9, 10, 11, 12]],
    );
    let rect = RegionRect { x: 1, y: 1, width: 2, height: 2 };
    let sub = crop(&g, &rect).unwrap();
    assert_eq!(sub.width, 2);
    assert_eq!(sub.height, 2);
    assert_eq!(sub.get_px(0, 0), 6);
    assert_eq!(sub.get_px(1, 0), 7);
    assert_eq!(sub.get_px(0, 1), 10);
    assert_eq!(sub.get_px(1, 1), 11);
}

#[test]
fn crop_twice_is_byte_identical() {
    let g = grid_from_rows(
        4,
        3,
        &[&[1, 2, 3, 4], &[5, 6, 7, 8], &[9, 10, 11, 12]],
    );
    let rect = RegionRect { x: 0, y: 1, width: 3, height: 2 };
    let a = crop(&g, &rect).unwrap();
    let b = crop(&g, &rect).unwrap();
    assert_eq!(a.width, b.width);
    assert_eq!(a.height, b.height);
    assert_eq!(a.data, b.data);
}

#[test]
fn crop_out_of_bounds_is_rejected() {
    let g = PixelGrid::new_filled(4, 3, 0);
    let too_wide = RegionRect { x: 2, y: 0, width: 3, height: 1 };
    assert_eq!(crop(&g, &too_wide).unwrap_err(), ReadError::RegionOutOfBounds);
    let empty = RegionRect { x: 0, y: 0, width: 0, height: 1 };
    assert_eq!(crop(&g, &empty).unwrap_err(), ReadError::RegionOutOfBounds);
}
