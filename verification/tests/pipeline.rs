use std::cell::Cell;

use card_reader::diag::{CliDiag, Diagnostic, NoDiag};
use card_reader::grid::PixelGrid;
use card_reader::ocr::OcrEngine;
use card_reader::rect::RegionRect;
use card_reader::{
    extract_infos_subviews, read_batch, read_card, CardInfos, CardInfosSubImages,
    CardInfosTextChunks, ReadError,
};

const LIGHT: u8 = 230;
const DARK: u8 = 50;

fn fill_rect(g: &mut PixelGrid, x0: usize, y0: usize, w: usize, h: usize, v: u8) {
    for y in y0..y0 + h {
        for x in x0..x0 + w {
            g.set_px(x, y, v);
        }
    }
}

/// Answers each recognition request with the next scripted string, keeping
/// every raster it was handed.
struct ScriptedOcr {
    answers: Vec<Result<String, ReadError>>,
    next: usize,
    rasters: Vec<Vec<u8>>,
}

impl ScriptedOcr {
    fn new(answers: Vec<Result<String, ReadError>>) -> ScriptedOcr {
        ScriptedOcr { answers, next: 0, rasters: Vec::new() }
    }
}

impl OcrEngine for ScriptedOcr {
    fn recognize(&mut self, raster: &Vec<u8>) -> Result<String, ReadError> {
        self.rasters.push(raster.clone());
        let answer = self.answers[self.next].clone();
        self.next += 1;
        answer
    }
}

/// Counts how often each diagnostic hook fires.
#[derive(Default)]
struct CountingDiag {
    thresh: Cell<usize>,
    card_finder: Cell<usize>,
    text_chunks: Cell<usize>,
    name: Cell<usize>,
    description: Cell<usize>,
}

impl Diagnostic for CountingDiag {
    fn diag_card_finder(&self, _src_img: &PixelGrid, _rois: &Vec<RegionRect>) {
        self.card_finder.set(self.card_finder.get() + 1);
    }

    fn diag_card_finder_thresh(&self, _bin: &PixelGrid) {
        self.thresh.set(self.thresh.get() + 1);
    }

    fn diag_find_text_chunks(&self, _src_img: &PixelGrid, _chunks: &CardInfosTextChunks) {
        self.text_chunks.set(self.text_chunks.get() + 1);
    }

    fn diag_read_card_name(&self, _input_img: &PixelGrid) {
        self.name.set(self.name.get() + 1);
    }

    fn diag_read_card_description(&self, _input_img: &PixelGrid) {
        self.description.set(self.description.get() + 1);
    }
}

fn one_card_scan() -> PixelGrid {
    let mut scan = PixelGrid::new_filled(300, 450, LIGHT);
    fill_rect(&mut scan, 40, 40, 200, 360, DARK);
    scan
}

#[test]
fn end_to_end_reads_one_card() {
    let scan = one_card_scan();
    let mut ocr = ScriptedOcr::new(vec![
        Ok(String::from("Test\n")),
        Ok(String::from("Hello\nworld\n")),
    ]);
    let records = read_batch(&scan, None::<&NoDiag>, &mut ocr).unwrap();
    assert_eq!(records.len(), 1);
    let infos = records[0].as_ref().unwrap();
    assert_eq!(infos.name, "Test");
    assert_eq!(infos.description, "Hello world");
}

#[test]
fn blank_scan_yields_empty_batch() {
    let scan = PixelGrid::new_filled(200, 150, LIGHT);
    let mut ocr = ScriptedOcr::new(Vec::new());
    let records = read_batch(&scan, None::<&NoDiag>, &mut ocr).unwrap();
    assert!(records.is_empty());
    assert!(ocr.rasters.is_empty());
}

#[test]
fn zero_area_scan_aborts_batch() {
    let scan = PixelGrid::new_filled(0, 0, LIGHT);
    let mut ocr = ScriptedOcr::new(Vec::new());
    let err = read_batch(&scan, None::<&NoDiag>, &mut ocr).unwrap_err();
    assert_eq!(err, ReadError::EmptyScan);
}

#[test]
fn ocr_failure_marks_only_that_card() {
    let mut scan = PixelGrid::new_filled(420, 300, LIGHT);
    fill_rect(&mut scan, 20, 20, 150, 260, DARK);
    fill_rect(&mut scan, 230, 20, 150, 260, DARK);
    let mut ocr = ScriptedOcr::new(vec![
        Err(ReadError::OcrRecognition),
        Ok(String::from("Dragon\n")),
        Ok(String::from("Breathes\nfire\n")),
    ]);
    let records = read_batch(&scan, None::<&NoDiag>, &mut ocr).unwrap();
    assert_eq!(records.len(), 2);
    assert_eq!(records[0].as_ref().unwrap_err(), &ReadError::OcrRecognition);
    let second = records[1].as_ref().unwrap();
    assert_eq!(second.name, "Dragon");
    assert_eq!(second.description, "Breathes fire");
}

#[test]
fn diagnostic_hooks_fire_once_per_stage() {
    let scan = one_card_scan();
    let diag = CountingDiag::default();
    let mut ocr = ScriptedOcr::new(vec![
        Ok(String::from("Test\n")),
        Ok(String::from("Hello world\n")),
    ]);
    let records = read_batch(&scan, Some(&diag), &mut ocr).unwrap();
    assert_eq!(records.len(), 1);
    assert_eq!(diag.thresh.get(), 1);
    assert_eq!(diag.card_finder.get(), 1);
    assert_eq!(diag.text_chunks.get(), 1);
    assert_eq!(diag.name.get(), 1);
    assert_eq!(diag.description.get(), 1);
}

#[test]
fn raster_is_a_tiff_encoding_of_the_binarized_chunk() {
    let scan = one_card_scan();
    let mut ocr = ScriptedOcr::new(vec![
        Ok(String::from("Test\n")),
        Ok(String::from("Hello world\n")),
    ]);
    read_batch(&scan, None::<&NoDiag>, &mut ocr).unwrap();
    assert_eq!(ocr.rasters.len(), 2);
    // The detected card is 200 x 360; the name region of such a card is
    // 142 x 33 by the fixed ratios, and the uniformly dark card binarizes
    // to black.
    let decoded = image::load_from_memory(&ocr.rasters[0]).unwrap().into_luma8();
    assert_eq!(decoded.width(), 142);
    assert_eq!(decoded.height(), 33);
    for p in decoded.pixels() {
        assert_eq!(p.0[0], 0);
    }
}

#[test]
fn read_card_cleans_both_roles() {
    let card = PixelGrid::new_filled(732, 1061, DARK);
    let chunks = card_reader::locate::find_text_chunks(&card, None::<&NoDiag>).unwrap();
    let views: CardInfosSubImages = extract_infos_subviews(&card, chunks);
    let mut ocr = ScriptedOcr::new(vec![
        Ok(String::from("Goblin\nSome garbage\n")),
        Ok(String::from("A long\ndescription here.\n")),
    ]);
    let infos: CardInfos = read_card(views, None::<&NoDiag>, &mut ocr).unwrap();
    assert_eq!(infos.name, "Goblin");
    assert_eq!(infos.description, "A long description here.");
}

#[test]
fn cli_diag_counts_text_chunk_files() {
    let mut d = CliDiag::new(String::from("out/scan_0"));
    assert_eq!(d.output_path, "out/scan_0");
    assert_eq!(d.text_chunk_count, 0);
    assert_eq!(d.next_text_chunk_index(), 0);
    assert_eq!(d.next_text_chunk_index(), 1);
    assert_eq!(d.text_chunk_count, 2);
}
