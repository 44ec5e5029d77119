use photoscanner::binary64::Binary64;
use photoscanner::gui::{
    begin_work, save_review, start_import, start_scan, Form, SaveStart, ScanMode, Session, Start,
};
use photoscanner::review::Review;
use photoscanner::sheet::{compose_image_sheet, SheetPlan};
use photoscanner::work::{
    prepare_review, preview_source, save_review_work, scan_work, PrepareEvent, PrepareRun,
    PrepareStage, SaveReviewEvent, SaveReviewRun, SaveReviewStage, Saved, SavingEvent,
    SavingStage, ScanEnd, ScanWorkEvent, ScanWorkStage, WorkError,
};
use std::collections::HashMap;

fn session(busy: bool, devices: usize) -> Session {
    Session {
        operation_id: 1,
        busy,
        cancellable: false,
        discovery_pending: false,
        closing: false,
        devices,
        reviewing: false,
    }
}

fn form(date: &str) -> Form {
    Form {
        date: date.to_string(),
        dpi_index: 2,
        format_index: 1,
        min_area: Binary64 {
            bits: 2.0f64.to_bits(),
        },
        auto_threshold: true,
        threshold: Binary64 {
            bits: 12.0f64.to_bits(),
        },
        padding: Binary64 {
            bits: 1.2f64.to_bits(),
        },
        quality: 95,
    }
}

fn saved(files: &[&str], preview: Option<&str>) -> Saved {
    Saved {
        files: files.iter().map(|name| name.to_string()).collect(),
        preview: preview.map(str::to_string),
    }
}

#[test]
fn scans_start_with_a_scanner_and_a_date() {
    let good = form("01.09.1995");
    assert!(matches!(
        start_scan(session(true, 1), 0, &good, 0, false),
        Start::Ignored
    ));
    assert!(matches!(
        start_scan(session(false, 1), 1, &good, 0, false),
        Start::NoScanner
    ));
    assert!(matches!(
        start_scan(session(false, 0), 0, &good, 0, false),
        Start::NoScanner
    ));
    assert!(matches!(
        start_scan(session(false, 1), 0, &form("gestern"), 0, false),
        Start::InvalidDate
    ));
    assert!(matches!(
        start_scan(session(false, 1), 0, &good, 0, true),
        Start::Begin { begun, config, mode: ScanMode::Review }
            if config.dpi == Some(1200) && begun == begin_work(session(false, 1))
    ));
    assert!(matches!(
        start_import(session(false, 0), &good, 1, true),
        Start::Begin { begun, config, mode: ScanMode::Full }
            if config.dpi.is_none() && begun.session.busy
    ));
    assert!(matches!(
        start_import(session(false, 0), &form(""), 1, true),
        Start::InvalidDate
    ));
    assert!(matches!(
        start_import(session(true, 0), &good, 1, true),
        Start::Ignored
    ));
}

#[test]
fn reviews_are_saved_with_a_chosen_photo() {
    let mut review = Review::new(&vec![0, 1]);
    assert_eq!(
        save_review(session(true, 0), Some(&review)),
        SaveStart::Ignored
    );
    assert_eq!(
        save_review(session(false, 0), Some(&review)),
        SaveStart::Begin {
            begun: begin_work(session(false, 0)),
            count: 2
        }
    );
    review.choose_photo(0, false);
    review.choose_photo(1, false);
    assert_eq!(
        save_review(session(false, 0), Some(&review)),
        SaveStart::NothingChosen
    );
    assert_eq!(
        save_review(session(false, 0), None),
        SaveStart::NothingChosen
    );
}

#[test]
fn scans_are_saved_and_shown() {
    assert_eq!(
        preview_source(&saved(&["a", "b"], Some("p"))),
        Some("p".to_string())
    );
    assert_eq!(
        preview_source(&saved(&["a", "b"], None)),
        Some("a".to_string())
    );
    assert_eq!(preview_source(&saved(&[], None)), None);

    let checking = || SavingStage::Saving.advance(SavingEvent::Saved(Ok(saved(&["a", "b"], None))));
    assert!(matches!(
        checking().advance(SavingEvent::Checked { cancelled: true }),
        SavingStage::Finished(Err(WorkError::Cancelled))
    ));
    let previewing = || checking().advance(SavingEvent::Checked { cancelled: false });
    assert!(matches!(
        previewing(),
        SavingStage::Previewing { count: 2, source } if source == "a"
    ));
    assert!(matches!(
        previewing().advance(SavingEvent::Previewed(Ok(()))),
        SavingStage::Finished(Ok(2))
    ));
    assert!(matches!(
        previewing().advance(SavingEvent::Previewed(Err("x".to_string()))),
        SavingStage::Finished(Err(WorkError::Failed(message))) if message == "x"
    ));
    assert!(matches!(
        SavingStage::Saving.advance(SavingEvent::Saved(Err("y".to_string()))),
        SavingStage::Finished(Err(WorkError::Failed(message))) if message == "y"
    ));
    assert!(matches!(
        SavingStage::Checking(saved(&[], None)).advance(SavingEvent::Checked { cancelled: false }),
        SavingStage::Finished(Err(WorkError::NoPreview))
    ));
}

#[test]
fn scans_lead_to_reviews_or_files() {
    let checked = |cancelled| ScanWorkEvent::Checked { cancelled };
    let scanned = |mode| {
        scan_work()
            .advance(checked(false), mode)
            .advance(ScanWorkEvent::Scanned(Ok(())), mode)
    };
    assert!(matches!(
        scan_work().advance(checked(true), ScanMode::Full),
        ScanWorkStage::Finished(Err(WorkError::Cancelled))
    ));
    assert!(matches!(
        scanned(ScanMode::Full).advance(checked(true), ScanMode::Full),
        ScanWorkStage::Finished(Err(WorkError::Cancelled))
    ));
    assert!(matches!(
        scan_work()
            .advance(checked(false), ScanMode::Direct)
            .advance(ScanWorkEvent::Scanned(Err("x".to_string())), ScanMode::Direct),
        ScanWorkStage::Finished(Err(WorkError::Failed(_)))
    ));
    assert!(matches!(
        scanned(ScanMode::Review)
            .advance(checked(false), ScanMode::Review)
            .advance(ScanWorkEvent::Reviewed(Ok(())), ScanMode::Review),
        ScanWorkStage::Finished(Ok(ScanEnd::Review))
    ));
    let mode = ScanMode::Direct;
    let mut stage = scanned(mode).advance(checked(false), mode);
    for event in [
        SavingEvent::Saved(Ok(saved(&["a", "b", "c"], Some("p")))),
        SavingEvent::Checked { cancelled: false },
        SavingEvent::Previewed(Ok(())),
    ] {
        stage = stage.advance(ScanWorkEvent::Saving(event), mode);
    }
    assert!(matches!(
        stage,
        ScanWorkStage::Finished(Ok(ScanEnd::Saved(3)))
    ));
}

fn prepare(sizes: &[(i32, i32)]) -> PrepareRun {
    let mut run = prepare_review(sizes.len());
    for size in sizes {
        run = run.advance(PrepareEvent::Checked { cancelled: false });
        run = run.advance(PrepareEvent::Cut(Ok(*size)));
        if matches!(run.stage, PrepareStage::Storing(_)) {
            run = run.advance(PrepareEvent::Stored(Ok(())));
        }
    }
    run
}

#[test]
fn reviews_are_prepared_without_small_photos() {
    let run = prepare(&[(20, 30), (9, 30), (30, 40)]);
    assert!(matches!(run.stage, PrepareStage::Drawing));
    assert_eq!(run.kept, [0, 2]);
    assert!(matches!(
        run.advance(PrepareEvent::Drawn(Ok(()))).stage,
        PrepareStage::Finished(Ok(()))
    ));
    assert!(matches!(
        prepare(&[(5, 5)]).stage,
        PrepareStage::Finished(Err(WorkError::NoPhotos))
    ));
    assert!(matches!(
        prepare(&[]).stage,
        PrepareStage::Finished(Err(WorkError::NoPhotos))
    ));
    assert!(matches!(
        prepare_review(1)
            .advance(PrepareEvent::Checked { cancelled: true })
            .stage,
        PrepareStage::Finished(Err(WorkError::Cancelled))
    ));
    assert!(matches!(
        prepare_review(1)
            .advance(PrepareEvent::Checked { cancelled: false })
            .advance(PrepareEvent::Cut(Err("x".to_string())))
            .stage,
        PrepareStage::Finished(Err(WorkError::Failed(message))) if message == "x"
    ));
}

#[test]
fn reviews_are_saved_group_by_group() {
    let mut review = Review::new(&vec![0, 1, 2, 2]);
    review.choose_photo(1, false);
    review.rotate(3);
    let mut run = save_review_work(review, 3);
    let mut exported = Vec::new();
    loop {
        let event = match &run.stage {
            SaveReviewStage::Checking(_) => SaveReviewEvent::Checked { cancelled: false },
            SaveReviewStage::Exporting { group, photos } => {
                exported.push((*group, photos.clone()));
                SaveReviewEvent::Exported(Ok(photos.iter().map(|i| format!("{i}.png")).collect()))
            }
            SaveReviewStage::Composing => {
                assert_eq!(*run.sheet_files(), ["0.png", "2.png", "3.png"]);
                SaveReviewEvent::Composed(Ok(()))
            }
            SaveReviewStage::Previewing => SaveReviewEvent::Previewed(Ok(())),
            SaveReviewStage::Finished(_) => break,
        };
        run = run.advance(event);
    }
    assert_eq!(exported, [(0, vec![0]), (2, vec![2, 3])]);
    assert_eq!(run.files, ["0.png", "2.png", "3.png"]);
    assert!(matches!(run.stage, SaveReviewStage::Finished(Ok(3))));
}

#[test]
fn savings_of_reviews_can_end_early() {
    let start = || save_review_work(Review::new(&vec![0]), 1);
    let checked = |run: SaveReviewRun, cancelled| run.advance(SaveReviewEvent::Checked { cancelled });
    assert!(matches!(
        checked(start(), true).stage,
        SaveReviewStage::Finished(Err(WorkError::Cancelled))
    ));
    assert!(matches!(
        checked(start(), false)
            .advance(SaveReviewEvent::Exported(Err("x".to_string())))
            .stage,
        SaveReviewStage::Finished(Err(WorkError::Failed(message))) if message == "x"
    ));
    let saved = checked(start(), false).advance(SaveReviewEvent::Exported(Ok(vec!["a".to_string()])));
    let cancelled = checked(saved, true);
    assert!(matches!(
        cancelled.stage,
        SaveReviewStage::Finished(Err(WorkError::Cancelled))
    ));
    assert_eq!(cancelled.files, ["a"]);
    let empty = checked(save_review_work(Review::new(&vec![]), 0), false);
    assert!(matches!(
        empty.stage,
        SaveReviewStage::Finished(Err(WorkError::NoPreview))
    ));
}

#[test]
fn started_work_keeps_other_work_out() {
    let Start::Begin { begun, .. } =
        start_scan(session(false, 1), 0, &form("01.09.1995"), 0, false)
    else {
        panic!("the scan starts");
    };
    let busy = begun.session;
    let good = form("01.09.1995");
    assert!(matches!(
        start_scan(busy, 0, &good, 0, false),
        Start::Ignored
    ));
    assert!(matches!(
        start_import(busy, &good, 0, false),
        Start::Ignored
    ));
    assert_eq!(
        save_review(busy, Some(&Review::new(&vec![0]))),
        SaveStart::Ignored
    );
}

#[test]
fn saved_review_preview_uses_the_exported_photo() {
    // Colours of images in blue, green and red.
    let mut images = HashMap::from([
        ("scan.png".to_string(), [80, 80, 80]),
        ("staging/photo.png".to_string(), [0, 0, 255]),
    ]);
    let photos = ["staging/photo.png"];
    let mut shown = None;
    let mut run = save_review_work(Review::new(&vec![0]), 1);
    loop {
        let event = match &run.stage {
            SaveReviewStage::Checking(_) => SaveReviewEvent::Checked { cancelled: false },
            SaveReviewStage::Exporting { photos: chosen, .. } => {
                let mut files = Vec::new();
                for index in chosen {
                    let name = format!("saved/scan_1995-09-01_{:02}.png", files.len() + 1);
                    images.insert(name.clone(), images[photos[*index]]);
                    files.push(name);
                }
                SaveReviewEvent::Exported(Ok(files))
            }
            SaveReviewStage::Composing => {
                match compose_image_sheet(run.sheet_files(), "staging") {
                    SheetPlan::Single(image) => shown = Some(image),
                    other => panic!("{other:?}"),
                }
                SaveReviewEvent::Composed(Ok(()))
            }
            SaveReviewStage::Previewing => SaveReviewEvent::Previewed(Ok(())),
            SaveReviewStage::Finished(_) => break,
        };
        run = run.advance(event);
    }
    assert!(matches!(run.stage, SaveReviewStage::Finished(Ok(1))));
    let preview = shown.unwrap();
    assert_eq!(preview, "saved/scan_1995-09-01_01.png");
    let center = images[&preview];
    assert!(center[2] > 220 && center[1] < 30 && center[0] < 30);
}
