//! Extraction of structured text from scans of physical cards.
//!
//! A scan is a grayscale pixel grid holding one or more cards on a light
//! background.  The pipeline locates each card (binarization, morphological
//! cleanup, connected-component bounding boxes), locates the name and
//! description text regions inside each card by fixed ratios, crops the
//! regions, and turns each region into a cleaned string through an injected
//! OCR engine.

use vstd::prelude::*;

pub mod components;
pub mod diag;
pub mod grid;
pub mod locate;
pub mod morphology;
pub mod ocr;
pub mod rect;
pub mod text;

use crate::components::components;
use crate::diag::Diagnostic;
use crate::grid::crop;
use crate::grid::crop_post;
use crate::grid::invert;
use crate::grid::threshold;
use crate::grid::PixelGrid;
use crate::locate::find_text_chunks;
use crate::morphology::dilate;
use crate::morphology::erode;
use crate::ocr::encode_tiff;
use crate::ocr::OcrEngine;
use crate::rect::RegionRect;
use crate::text::clean_description;
use crate::text::clean_name;
use crate::text::cleaned_description;
use crate::text::first_line_of;

verus! {

/// Intensity cutoff separating card material from the light background.
pub const THRESH_VAL: u8 = 200;

/// Radius of the square structuring element (side 15) used to clean the
/// binarized scan.
pub const KERN_RADIUS: usize = 7;

/// The text read off one card.
#[derive(Debug)]
pub struct CardInfos {
    pub name: String,
    pub description: String,
}

/// The two text regions of a card, in coordinates relative to the card's own
/// sub-image.
#[derive(Debug, Clone, Copy, PartialEq, Eq, Structural)]
pub struct CardInfosTextChunks {
    pub name: RegionRect,
    pub description: RegionRect,
}

/// The two text regions of a card, cropped out of the card's sub-image.
pub struct CardInfosSubImages {
    pub name: PixelGrid,
    pub description: PixelGrid,
}

/// How a stage of the pipeline can fail.
#[derive(Clone, Copy, Debug, PartialEq, Eq, Structural)]
pub enum ReadError {
    /// The scan has zero area, so there is nothing to segment.
    EmptyScan,
    /// A crop was asked for a region that does not lie inside its parent
    /// grid.
    RegionOutOfBounds,
    /// A card sub-image is too small for any text region to have positive
    /// dimensions.
    RegionTooSmall,
    /// The raster encoding of a text chunk failed.
    ImageEncode,
    /// The OCR engine failed to recognize one text chunk.
    OcrRecognition,
}

/// A scan that holds nothing but light background: every intensity is at or
/// above the cutoff.
pub open spec fn is_blank(img: PixelGrid) -> bool {
    forall|x: int, y: int| img.in_bounds(x, y) ==> #[trigger] img.px(x, y) >= THRESH_VAL
}

/// A dark square of the structuring element's size centered on `(cx, cy)`,
/// lying fully inside the scan: the smallest mark the morphological cleanup
/// is guaranteed to keep, so a card showing one is never missed.
pub open spec fn dark_core_at(img: PixelGrid, cx: int, cy: int) -> bool {
    &&& KERN_RADIUS <= cx && cx + KERN_RADIUS < img.width
    &&& KERN_RADIUS <= cy && cy + KERN_RADIUS < img.height
    &&& forall|x: int, y: int|
        cx - KERN_RADIUS <= x <= cx + KERN_RADIUS && cy - KERN_RADIUS <= y <= cy + KERN_RADIUS
            ==> #[trigger] img.px(x, y) < THRESH_VAL
}

/// What segmentation guarantees of its regions against the scan: every
/// region satisfies the containment invariant, a blank scan yields none,
/// some region exists exactly when some kernel-sized dark core does, and
/// every dark core is covered by some region.
pub open spec fn segmentation_post(img: PixelGrid, rois: Seq<RegionRect>) -> bool {
    &&& forall|i: int|
        0 <= i < rois.len() ==> (#[trigger] rois[i]).valid_for(img.width as int, img.height as int)
    &&& is_blank(img) ==> rois.len() == 0
    &&& rois.len() > 0 <==> exists|cx: int, cy: int| dark_core_at(img, cx, cy)
    &&& forall|cx: int, cy: int|
        dark_core_at(img, cx, cy) ==> exists|i: int|
            0 <= i < rois.len() && (#[trigger] rois[i]).covers(cx, cy)
}

/// What `read_batch` guarantees of each per-card entry: a successful record
/// holds cleaned text, and a failure is one of the per-card error kinds.
pub open spec fn valid_record(rec: Result<CardInfos, ReadError>) -> bool {
    match rec {
        Ok(infos) => {
            &&& exists|raw: Seq<char>| #[trigger] first_line_of(raw, infos.name@)
            &&& exists|raw: Seq<char>| #[trigger] cleaned_description(raw, infos.description@)
        },
        Err(e) => e == ReadError::RegionTooSmall || e == ReadError::ImageEncode || e
            == ReadError::OcrRecognition,
    }
}

/// Finds the region of each card on the scan: binary threshold and
/// inversion isolate the cards from the light background, a morphological
/// opening then closing removes specks and fills gaps, and each remaining
/// 8-connected blob yields one bounding rectangle, in discovery order.
///
/// Fails with `EmptyScan` exactly when the scan has zero area.  Every
/// returned region satisfies the containment invariant against the scan, a
/// blank scan yields no region, and the result is empty exactly when the
/// scan shows no kernel-sized dark core.
pub fn find_chunks<D: Diagnostic>(img: &PixelGrid, diag: Option<&D>) -> (r: Result<
    Vec<RegionRect>,
    ReadError,
>)
    requires
        img.wf(),
    ensures
        match r {
            Ok(rois) => img.width > 0 && img.height > 0 && segmentation_post(*img, rois@),
            Err(e) => (img.width == 0 || img.height == 0) && e == ReadError::EmptyScan,
        },
{
    if img.width == 0 || img.height == 0 {
        return Err(ReadError::EmptyScan);
    }
    let marked = threshold(img, THRESH_VAL);
    let marked = invert(&marked);
    let opened_lo = erode(&marked, KERN_RADIUS);
    let opened = dilate(&opened_lo, KERN_RADIUS);
    let closed_hi = dilate(&opened, KERN_RADIUS);
    let cleaned = erode(&closed_hi, KERN_RADIUS);
    if let Some(d) = diag {
        d.diag_card_finder_thresh(&cleaned);
    }
    proof {
        if is_blank(*img) {
            assert forall|x: int, y: int| marked.in_bounds(x, y) implies #[trigger] marked.px(x, y)
                != 255 by {
            }
            assert forall|x: int, y: int| opened_lo.in_bounds(x, y) implies #[trigger] opened_lo.px(
                x,
                y,
            ) != 255 by {
                morphology::lemma_erode_of_empty(marked, x, y, KERN_RADIUS as int);
            }
            assert forall|x: int, y: int| opened.in_bounds(x, y) implies #[trigger] opened.px(x, y)
                != 255 by {
                morphology::lemma_dilate_of_empty(opened_lo, x, y, KERN_RADIUS as int);
            }
            assert forall|x: int, y: int| closed_hi.in_bounds(x, y) implies #[trigger] closed_hi.px(
                x,
                y,
            ) != 255 by {
                morphology::lemma_dilate_of_empty(opened, x, y, KERN_RADIUS as int);
            }
            assert forall|x: int, y: int| cleaned.in_bounds(x, y) implies #[trigger] cleaned.px(
                x,
                y,
            ) != 255 by {
                morphology::lemma_erode_of_empty(closed_hi, x, y, KERN_RADIUS as int);
            }
        }
        if !(exists|cx: int, cy: int| dark_core_at(*img, cx, cy)) {
            assert forall|x: int, y: int| opened_lo.in_bounds(x, y) implies #[trigger] opened_lo.px(
                x,
                y,
            ) != 255 by {
                if opened_lo.px(x, y) == 255 {
                    let k = KERN_RADIUS as int;
                    assert forall|xx: int, yy: int|
                        x - k <= xx <= x + k && y - k <= yy <= y + k implies #[trigger] img.px(
                        xx,
                        yy,
                    ) < THRESH_VAL by {
                        assert(marked.px(xx, yy) == 255);
                    }
                    assert(dark_core_at(*img, x, y));
                    assert(false);
                }
            }
            assert forall|x: int, y: int| opened.in_bounds(x, y) implies #[trigger] opened.px(x, y)
                != 255 by {
                morphology::lemma_dilate_of_empty(opened_lo, x, y, KERN_RADIUS as int);
            }
            assert forall|x: int, y: int| closed_hi.in_bounds(x, y) implies #[trigger] closed_hi.px(
                x,
                y,
            ) != 255 by {
                morphology::lemma_dilate_of_empty(opened, x, y, KERN_RADIUS as int);
            }
            assert forall|x: int, y: int| cleaned.in_bounds(x, y) implies #[trigger] cleaned.px(
                x,
                y,
            ) != 255 by {
                morphology::lemma_erode_of_empty(closed_hi, x, y, KERN_RADIUS as int);
            }
        }
    }
    let rois = components(&cleaned);
    proof {
        assert forall|cx: int, cy: int| dark_core_at(*img, cx, cy) implies exists|i: int|
            0 <= i < rois@.len() && (#[trigger] rois@[i]).covers(cx, cy) by {
            let k = KERN_RADIUS as int;
            assert forall|x: int, y: int|
                cx - k <= x <= cx + k && cy - k <= y <= cy + k implies marked.px(x, y) == 255 by {
                assert(img.px(x, y) < THRESH_VAL);
            }
            assert(opened_lo.px(cx, cy) == 255);
            assert(opened.px(cx, cy) == 255);
            assert forall|x: int, y: int|
                cx - k <= x <= cx + k && cy - k <= y <= cy + k implies closed_hi.px(x, y)
                    == 255 by {
                assert(opened.in_bounds(cx, cy));
            }
            assert(cleaned.in_bounds(cx, cy) && cleaned.px(cx, cy) == 255);
            let j = choose|j: int| 0 <= j < rois@.len() && rois@[j].covers(cx, cy);
            assert(rois@[j].covers(cx, cy));
        }
        if exists|cx: int, cy: int| dark_core_at(*img, cx, cy) {
            let (cx, cy) = choose|cx: int, cy: int| dark_core_at(*img, cx, cy);
            assert(rois@.len() > 0);
        }
    }
    Ok(rois)
}

/// Crops the name and description chunks out of a card sub-image.
pub fn extract_infos_subviews(view: &PixelGrid, chunks: CardInfosTextChunks) -> (r:
    CardInfosSubImages)
    requires
        view.wf(),
        chunks.name.valid_for(view.width as int, view.height as int),
        chunks.description.valid_for(view.width as int, view.height as int),
    ensures
        crop_post(*view, chunks.name, r.name),
        crop_post(*view, chunks.description, r.description),
{
    let name = match crop(view, &chunks.name) {
        Ok(g) => g,
        Err(_) => vstd::pervasive::unreached(),
    };
    let description = match crop(view, &chunks.description) {
        Ok(g) => g,
        Err(_) => vstd::pervasive::unreached(),
    };
    CardInfosSubImages { name, description }
}

/// Reads the text of one card from its two cropped chunks: each chunk is
/// re-binarized for contrast, losslessly encoded, handed to the OCR engine,
/// and the raw answer cleaned by its role.
///
/// Whatever the engine answered, a successful record holds a single-line
/// name and a joined, trimmed description.  An engine failure is mapped to
/// `OcrRecognition`, scoped to this card.
pub fn read_card<D: Diagnostic, O: OcrEngine>(
    views: CardInfosSubImages,
    diag: Option<&D>,
    ocr: &mut O,
) -> (r: Result<CardInfos, ReadError>)
    requires
        views.name.wf(),
        views.description.wf(),
        views.name.width <= u32::MAX,
        views.name.height <= u32::MAX,
        views.description.width <= u32::MAX,
        views.description.height <= u32::MAX,
    ensures
        valid_record(r),
        r is Err ==> r->Err_0 == ReadError::ImageEncode || r->Err_0 == ReadError::OcrRecognition,
        views.name.width > 0 && views.name.height > 0 && views.name.width * views.name.height
            < ocr::MAX_RASTER_PIXELS && views.description.width > 0 && views.description.height > 0
            && views.description.width * views.description.height < ocr::MAX_RASTER_PIXELS ==> (r
            is Err ==> r->Err_0 == ReadError::OcrRecognition),
{
    let name_bin = threshold(&views.name, THRESH_VAL);
    if let Some(d) = diag {
        d.diag_read_card_name(&name_bin);
    }
    let name_raster = match encode_tiff(&name_bin) {
        Ok(bytes) => bytes,
        Err(e) => {
            return Err(e);
        },
    };
    let raw_name = match ocr.recognize(&name_raster) {
        Ok(s) => s,
        Err(_) => {
            return Err(ReadError::OcrRecognition);
        },
    };
    let name = clean_name(raw_name.as_str());

    let description_bin = threshold(&views.description, THRESH_VAL);
    if let Some(d) = diag {
        d.diag_read_card_description(&description_bin);
    }
    let description_raster = match encode_tiff(&description_bin) {
        Ok(bytes) => bytes,
        Err(e) => {
            return Err(e);
        },
    };
    let raw_description = match ocr.recognize(&description_raster) {
        Ok(s) => s,
        Err(_) => {
            return Err(ReadError::OcrRecognition);
        },
    };
    let description = clean_description(raw_description.as_str());

    let infos = CardInfos { name, description };
    proof {
        let rec = Ok::<CardInfos, ReadError>(infos);
        assert(first_line_of(raw_name@, rec->Ok_0.name@));
        assert(cleaned_description(raw_description@, rec->Ok_0.description@));
        assert(valid_record(rec));
    }
    Ok(infos)
}

/// Extracts card records from a scan: segmentation finds each card's
/// region, each card sub-image is cropped, its text regions located by the
/// fixed ratios, and each region read through the OCR engine.
///
/// Fails with `EmptyScan` exactly when the scan has zero area; a blank scan
/// yields an empty sequence, not an error.  One entry is produced per
/// detected card region, in discovery order — the contract ties the records
/// to a region list satisfying the segmenter's guarantees, entry by entry —
/// and a failure scoped to one card is recorded in that card's entry and
/// aborts nothing else: `RegionTooSmall` exactly for the cards too small to
/// hold text regions, and otherwise only OCR failures on scans small enough
/// for the raster encoding to be owed.
pub fn read_batch<D: Diagnostic, O: OcrEngine>(
    img: &PixelGrid,
    diag: Option<&D>,
    ocr: &mut O,
) -> (r: Result<Vec<Result<CardInfos, ReadError>>, ReadError>)
    requires
        img.wf(),
        img.width <= u32::MAX,
        img.height <= u32::MAX,
        img.width * locate::REF_W <= usize::MAX,
        img.height * locate::REF_H <= usize::MAX,
    ensures
        match r {
            Ok(records) => {
                &&& img.width > 0 && img.height > 0
                &&& (is_blank(*img) ==> records@.len() == 0)
                &&& ((exists|cx: int, cy: int| dark_core_at(*img, cx, cy)) ==> records@.len() > 0)
                &&& forall|i: int| 0 <= i < records@.len() ==> valid_record(#[trigger] records@[i])
                &&& exists|rois: Seq<RegionRect>|
                    {
                        &&& #[trigger] segmentation_post(*img, rois)
                        &&& records@.len() == rois.len()
                        &&& forall|i: int|
                            0 <= i < rois.len() ==> (((#[trigger] records@[i]) is Err
                                && records@[i]->Err_0 == ReadError::RegionTooSmall) <==> (
                            rois[i].width < 2 || rois[i].height < 11))
                    }
                &&& img.width * img.height < ocr::MAX_RASTER_PIXELS ==> forall|i: int|
                    0 <= i < records@.len() && (#[trigger] records@[i]) is Err ==> records@[i]->Err_0
                        == ReadError::RegionTooSmall || records@[i]->Err_0
                        == ReadError::OcrRecognition
            },
            Err(e) => (img.width == 0 || img.height == 0) && e == ReadError::EmptyScan,
        },
{
    let card_rois = match find_chunks(img, diag) {
        Ok(rois) => rois,
        Err(e) => {
            return Err(e);
        },
    };
    if let Some(d) = diag {
        d.diag_card_finder(img, &card_rois);
    }
    let mut records: Vec<Result<CardInfos, ReadError>> = Vec::new();
    let mut idx: usize = 0;
    while idx < card_rois.len()
        invariant
            img.wf(),
            img.width > 0,
            img.height > 0,
            img.width <= u32::MAX,
            img.height <= u32::MAX,
            img.width * locate::REF_W <= usize::MAX,
            img.height * locate::REF_H <= usize::MAX,
            idx <= card_rois@.len(),
            segmentation_post(*img, card_rois@),
            records@.len() == idx,
            forall|i: int| 0 <= i < idx ==> valid_record(#[trigger] records@[i]),
            forall|i: int|
                0 <= i < idx ==> (((#[trigger] records@[i]) is Err && records@[i]->Err_0
                    == ReadError::RegionTooSmall) <==> (card_rois@[i].width < 2
                    || card_rois@[i].height < 11)),
            img.width * img.height < ocr::MAX_RASTER_PIXELS ==> forall|i: int|
                0 <= i < idx && (#[trigger] records@[i]) is Err ==> records@[i]->Err_0
                    == ReadError::RegionTooSmall || records@[i]->Err_0
                    == ReadError::OcrRecognition,
        decreases card_rois@.len() - idx,
    {
        let roi = card_rois[idx];
        let view = match crop(img, &roi) {
            Ok(v) => v,
            Err(_) => vstd::pervasive::unreached(),
        };
        proof {
            vstd::arithmetic::mul::lemma_mul_inequality(
                view.width as int,
                img.width as int,
                locate::REF_W as int,
            );
            vstd::arithmetic::mul::lemma_mul_inequality(
                view.height as int,
                img.height as int,
                locate::REF_H as int,
            );
        }
        let rec = match find_text_chunks(&view, diag) {
            Ok(chunks) => {
                proof {
                    grid::lemma_area_monotone(
                        chunks.name.width as int,
                        chunks.name.height as int,
                        img.width as int,
                        img.height as int,
                    );
                    grid::lemma_area_monotone(
                        chunks.description.width as int,
                        chunks.description.height as int,
                        img.width as int,
                        img.height as int,
                    );
                }
                let views = extract_infos_subviews(&view, chunks);
                read_card(views, diag, ocr)
            },
            Err(e) => Err(e),
        };
        records.push(rec);
        idx = idx + 1;
    }
    proof {
        assert(segmentation_post(*img, card_rois@));
    }
    Ok(records)
}

} // verus!
