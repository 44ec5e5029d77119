use photoscanner::binary64::Binary64;
use photoscanner::capture::CaptureDate;
use photoscanner::cli::{
    config, device_line, must_search, output_directory, scanner_name, Batch, ExportOptions,
    FormatArgument, ScannerChoice, ScannerOptions, SplitOptions,
};
use photoscanner::default_output_directory;
use photoscanner::gui::{
    begin_operation, begin_work, calendar_text, close_request, collect_config, controls, discard_review,
    handle_message, previous_page, reloads_theme, request_devices, scan_mode, status_after_scan, ClosingStep,
    Effect, Ending, FileEvent, Form, Note, ScanMode, Session,
};
use photoscanner::gui_settings::{PersistedSettings, StoredSettings};
use photoscanner::i18n::{
    contains_catalog, fill, fill_count, join, locale_directory, tr, tr_args, trn,
    user_locale_directory,
};
use photoscanner::import::{
    start_import, ImportEvent, ImportRun, ImportStage, Outcome, Processed,
};
use photoscanner::notices::{
    detail, error_summary, failure_line, has_details, join_lines, search_stop_of, short_path,
    stop_of, worker_message, Stop,
};
use photoscanner::review::{
    overview_file, photo_file, rotate_quarter_turns, thumbnail_file, Review,
};
use photoscanner::scanner::ScannerDevice;
use photoscanner::sheet::{
    bounded_size, compose_image_sheet, grid, label_position, label_scale, line_thickness,
    sheet_cell, Cell, SheetPlan, PREVIEW_MAX_EDGE, SHEET_FILE, SHEET_HEIGHT, SHEET_QUALITY,
    SHEET_WIDTH, SHOWN_QUALITY, THUMBNAIL_MAX_EDGE,
};
use photoscanner::splitter::{OutputFormat, Transform};
use photoscanner::zoom::{
    next_picture_zoom, next_review_zoom, picture_zoom_actions, review_zoom_actions, zoomed_size,
    ZoomActions, ZOOM_IN_STEP, ZOOM_OUT_STEP,
};
use photoscanner::{APP_ID, APP_NAME, OUTPUT_FOLDER};

fn double(value: f64) -> Binary64 {
    Binary64 {
        bits: value.to_bits(),
    }
}

fn float(value: Binary64) -> f64 {
    f64::from_bits(value.bits)
}

fn session() -> Session {
    Session {
        operation_id: 7,
        busy: true,
        cancellable: true,
        discovery_pending: false,
        closing: false,
        devices: 1,
        reviewing: false,
    }
}

fn settings() -> PersistedSettings {
    PersistedSettings::usual("photos")
}

#[test]
fn picture_zoom_starts_from_the_fitted_size() {
    let image = (3200, 2400);
    let viewport = (640, 480);
    let zoom = |current: f64, factor: f64| {
        float(next_picture_zoom(double(current), double(factor), image, viewport))
    };
    assert!((zoom(0.0, 1.25) - 0.25).abs() < 1e-9);
    assert!((zoom(0.0, 0.8) - 0.16).abs() < 1e-9);
    assert!((zoom(0.5, 1.25) - 0.625).abs() < 1e-9);
}

#[test]
fn zoom_follows_the_machine() {
    for (current, image, viewport) in [
        (0.0, (3200, 2400), (641, 479)),
        (0.0, (0, 10), (5, 5)),
        (0.0, (10, 10), (-1, 5)),
        (0.3, (1, 1), (1, 1)),
        (3.9, (1, 1), (1, 1)),
        (0.021, (1, 1), (1, 1)),
    ] {
        for factor in [1.25, 1.0 / 1.25] {
            let base = if current > 0.0 {
                current
            } else if image.0 > 0 && image.1 > 0 && viewport.0 > 0 && viewport.1 > 0 {
                (f64::from(viewport.0) / f64::from(image.0))
                    .min(f64::from(viewport.1) / f64::from(image.1))
            } else {
                1.0
            };
            let expected = (base * factor).clamp(0.02, 4.0);
            assert_eq!(
                float(next_picture_zoom(double(current), double(factor), image, viewport)),
                expected
            );
        }
    }
    let mut zoom = double(1.0);
    for _ in 0..12 {
        zoom = next_review_zoom(zoom, double(1.25));
    }
    assert_eq!(float(zoom), 2.0);
    assert!(!review_zoom_actions(zoom).zoom_in);
    for _ in 0..20 {
        zoom = next_review_zoom(zoom, double(1.0 / 1.25));
    }
    assert_eq!(float(zoom), 0.5);
    assert!(!review_zoom_actions(zoom).zoom_out);
    assert_eq!(
        picture_zoom_actions(double(0.0)),
        ZoomActions {
            zoom_in: true,
            zoom_out: true
        }
    );
    assert!(!picture_zoom_actions(double(4.0)).zoom_in);
    assert!(!picture_zoom_actions(double(0.02)).zoom_out);
    assert_eq!(zoomed_size(1200, 800, double(0.5)), (600, 400));
    assert_eq!(zoomed_size(1200, 800, double(0.4)), (480, 320));
    assert_eq!(zoomed_size(3, 1, double(0.02)), (1, 1));
    assert_eq!(zoomed_size(224, 176, double(1.25)), (280, 220));
}

#[test]
fn bounded_preview_limits_the_largest_edge() {
    let (cols, rows) = bounded_size(4000, 2000, PREVIEW_MAX_EDGE).unwrap();
    assert_eq!(cols.max(rows), PREVIEW_MAX_EDGE);
    assert_eq!((cols, rows), (3200, 1600));
}

#[test]
fn bounded_sizes_follow_the_machine() {
    for (width, height) in [
        (3201, 1),
        (1, 3201),
        (9999, 3333),
        (12345, 6789),
        (30000, 17),
        (7919, 7907),
        (i32::MAX, 3),
    ] {
        for maximum in [PREVIEW_MAX_EDGE, THUMBNAIL_MAX_EDGE] {
            let scale = f64::from(maximum) / f64::from(width.max(height));
            let edge = |length: i32| (f64::from(length) * scale).round().max(1.0) as i32;
            assert_eq!(
                bounded_size(width, height, maximum),
                Some((edge(width), edge(height)))
            );
        }
    }
    assert_eq!(bounded_size(3200, 10, PREVIEW_MAX_EDGE), None);
    assert_eq!(bounded_size(1, 1, THUMBNAIL_MAX_EDGE), None);
}

#[test]
fn review_overview_contains_every_source() {
    let left = sheet_cell(2, 0, 160, 90);
    let right = sheet_cell(2, 1, 160, 90);
    let holds = |cell: Cell, x: i32, y: i32| {
        cell.x <= x && x < cell.x + cell.width && cell.y <= y && y < cell.y + cell.height
    };
    assert_eq!((SHEET_WIDTH, SHEET_HEIGHT), (1200, 900));
    assert!(holds(left, 300, 450) && !holds(right, 300, 450));
    assert!(holds(right, 900, 450) && !holds(left, 900, 450));
    assert_eq!(
        left,
        Cell {
            x: 16,
            y: 290,
            width: 568,
            height: 320
        }
    );
}

#[test]
fn sheets_for_many_previews() {
    for (count, expected) in [
        (1, (1, 1)),
        (2, (2, 1)),
        (3, (2, 2)),
        (4, (2, 2)),
        (5, (3, 2)),
        (9, (3, 3)),
        (10, (4, 3)),
        (1_000_000, (1000, 1000)),
    ] {
        assert_eq!(grid(count), expected, "{count}");
        let columns = f64::from(count).sqrt().ceil() as u32;
        assert_eq!(grid(count).0 as u32, columns);
        assert_eq!(grid(count).1 as u32, count.div_ceil(columns));
    }
    for (index, width, height) in [(0, 10, 3000), (3, 3000, 10), (6, 1, 1)] {
        let (columns, rows) = grid(7);
        let (cell_width, cell_height) = (1200 / columns, 900 / rows);
        let scale = (f64::from(cell_width - 32) / f64::from(width))
            .min(f64::from(cell_height - 32) / f64::from(height));
        let w = (f64::from(width) * scale).round().max(1.0) as i32;
        let h = (f64::from(height) * scale).round().max(1.0) as i32;
        assert_eq!(
            sheet_cell(7, index as u32, width, height),
            Cell {
                x: index % columns * cell_width + (cell_width - w) / 2,
                y: index / columns * cell_height + (cell_height - h) / 2,
                width: w,
                height: h
            }
        );
    }
}

#[test]
fn marks_on_previews() {
    for (width, height) in [(2000, 1600), (2000, 700), (100, 100), (30000, 9000)] {
        let scale = (f64::from(width.min(height)) / 1400.0).clamp(0.7, 4.0);
        let bits = label_scale(width as u32, height as u32);
        assert_eq!(f64::from_bits(bits), scale);
        assert_eq!(line_thickness(bits), (scale * 2.0).round().max(2.0) as i32);
    }
    assert_eq!(
        label_position(&vec![(50, 20), (10, 60), (10, 30), (30, 10)]),
        (18, 58)
    );
    assert_eq!(label_position(&vec![(5, 5), (4, 6)]), (13, 33));
    assert_eq!(label_position(&Vec::new()), (8, 28));
    assert_eq!(
        label_position(&vec![(2_000_000_000, 100), (2_000_000_001, 5)]),
        (2_000_000_009, 33)
    );
    assert_eq!(
        label_position(&vec![(i32::MIN, 0), (0, 0)]),
        (i32::MIN + 8, 28)
    );
}

#[test]
fn error_summary_uses_first_line_and_limits_length() {
    assert_eq!(error_summary("Short\nTechnical details"), "Short");
    let long = "x".repeat(140);
    let summary = error_summary(&long);
    assert_eq!(summary.chars().count(), 120);
    assert!(summary.ends_with('…'));
}

#[test]
fn summaries_and_details() {
    assert_eq!(error_summary(""), "");
    assert_eq!(error_summary("one\r\ntwo"), "one");
    assert_eq!(error_summary(&"ä".repeat(120)), "ä".repeat(120));
    assert!(!has_details("Short"));
    assert!(has_details("Short\n"));
    assert!(has_details(&"x".repeat(121)));
    assert_eq!(failure_line("a.png", "kaputt\nmehr"), "a.png: kaputt");
    let lines = vec!["a".to_string(), "b".to_string(), "c".to_string()];
    assert_eq!(join_lines(&lines), "a\nb\nc");
    assert_eq!(join_lines(&Vec::new()), "");
    assert_eq!(detail("/out", "\nErrors:\n", &lines), "/out\nErrors:\na\nb\nc");
    assert_eq!(detail("/out", "\nErrors:\n", &Vec::new()), "/out");
    assert_eq!(short_path(Some("Bilder"), "Output folder"), "Bilder");
    assert_eq!(short_path(Some(""), "Output folder"), "Output folder");
    assert_eq!(short_path(None, "Output folder"), "Output folder");
    assert_eq!(stop_of("cancelled. more", "cancelled."), Stop::Cancelled);
    assert_eq!(stop_of("failed", "cancelled."), Stop::Failed);
    assert_eq!(search_stop_of("cancelled. more", "cancelled."), Stop::Failed);
    assert_eq!(search_stop_of("cancelled.", "cancelled."), Stop::Cancelled);
}

#[test]
fn quarter_turn_rotation_changes_dimensions() {
    let turned = |turns: u8, (cols, rows): (i32, i32)| match rotate_quarter_turns(turns) {
        Transform::RotateClockwise | Transform::RotateCounterclockwise => (rows, cols),
        _ => (cols, rows),
    };
    assert_eq!(turned(1, (90, 40)), (40, 90));
    assert_eq!(turned(2, (90, 40)), (90, 40));
    assert_eq!(rotate_quarter_turns(0), Transform::Keep);
    assert_eq!(rotate_quarter_turns(2), Transform::Rotate180);
    assert_eq!(rotate_quarter_turns(3), Transform::RotateCounterclockwise);
    assert_eq!(rotate_quarter_turns(5), Transform::RotateClockwise);
}

#[test]
fn scan_status_switches_to_the_follow_up_phase() {
    assert_eq!(tr(status_after_scan(ScanMode::Full)), tr("Saving scan…"));
    assert_eq!(
        tr(status_after_scan(ScanMode::Direct)),
        tr("Analyzing scan file…")
    );
    assert_eq!(
        tr(status_after_scan(ScanMode::Review)),
        tr("Analyzing scan file…")
    );
    assert_eq!(status_after_scan(ScanMode::Full), "Saving scan…");
    assert_eq!(scan_mode(1, true), ScanMode::Full);
    assert_eq!(scan_mode(0, true), ScanMode::Review);
    assert_eq!(scan_mode(0, false), ScanMode::Direct);
}

#[test]
fn settings_round_trip() {
    let expected = PersistedSettings {
        output_directory: "/home/user/photos".to_string(),
        dpi_index: 2,
        format_index: 1,
        mode_index: 1,
        quality: double(82.0),
        min_area: double(4.5),
        padding: double(2.4),
        auto_threshold: false,
        threshold: double(42.0),
        review_before_save: false,
        capture_date: Some(CaptureDate {
            year: 1995,
            month: 9,
            day: 1,
        }),
    };

    let stored = expected.save();
    assert_eq!(stored.capture_date.as_deref(), Some("1995-09-01"));
    let loaded = PersistedSettings::load(Some(stored), "elsewhere");

    assert_eq!(loaded.output_directory, expected.output_directory);
    assert_eq!(loaded.dpi_index, expected.dpi_index);
    assert_eq!(loaded.format_index, expected.format_index);
    assert_eq!(loaded.mode_index, expected.mode_index);
    assert_eq!(loaded.quality, expected.quality);
    assert_eq!(loaded.min_area, expected.min_area);
    assert_eq!(loaded.padding, expected.padding);
    assert_eq!(loaded.auto_threshold, expected.auto_threshold);
    assert_eq!(loaded.threshold, expected.threshold);
    assert_eq!(loaded.review_before_save, expected.review_before_save);
    assert_eq!(loaded.capture_date, expected.capture_date);
}

#[test]
fn loading_clamps_widget_values() {
    let invalid = PersistedSettings {
        dpi_index: 99,
        format_index: 99,
        mode_index: 99,
        quality: double(1000.0),
        min_area: double(-5.0),
        padding: double(99.0),
        threshold: double(0.0),
        ..settings()
    };

    let loaded = PersistedSettings::load(Some(invalid.save()), "photos");

    assert_eq!(loaded.dpi_index, 2);
    assert_eq!(loaded.format_index, 2);
    assert_eq!(loaded.mode_index, 1);
    assert_eq!(float(loaded.quality), 100.0);
    assert_eq!(float(loaded.min_area), 0.1);
    assert_eq!(float(loaded.padding), 15.0);
    assert_eq!(float(loaded.threshold), 1.0);
}

#[test]
fn corrupt_file_uses_defaults() {
    let loaded = PersistedSettings::load(None, "photos");
    let usual = settings();
    assert_eq!(loaded.output_directory, usual.output_directory);
    assert_eq!(loaded.dpi_index, 1);
    assert_eq!(loaded.format_index, 0);
    assert_eq!(loaded.mode_index, 0);
    assert_eq!(float(loaded.quality), 95.0);
    assert_eq!(float(loaded.min_area), 2.0);
    assert_eq!(float(loaded.padding), 1.2);
    assert!(loaded.auto_threshold);
    assert_eq!(float(loaded.threshold), 12.0);
    assert!(loaded.review_before_save);
    assert_eq!(loaded.capture_date, None);
}

#[test]
fn unusable_entries_are_replaced() {
    let stored = StoredSettings {
        output_directory: Some(String::new()),
        dpi_index: Some(-1),
        format_index: None,
        mode_index: Some(i32::MIN),
        quality: Some(double(f64::NAN)),
        min_area: Some(double(f64::INFINITY)),
        padding: None,
        auto_threshold: Some(false),
        threshold: Some(double(f64::NEG_INFINITY)),
        review_before_save: None,
        capture_date: Some("gestern".to_string()),
    };
    let loaded = PersistedSettings::load(Some(stored), "photos");
    assert_eq!(loaded.output_directory, "photos");
    assert_eq!(loaded.dpi_index, 1);
    assert_eq!(loaded.format_index, 0);
    assert_eq!(loaded.mode_index, 0);
    assert_eq!(float(loaded.quality), 95.0);
    assert_eq!(float(loaded.min_area), 2.0);
    assert_eq!(float(loaded.padding), 1.2);
    assert!(!loaded.auto_threshold);
    assert_eq!(float(loaded.threshold), 12.0);
    assert!(loaded.review_before_save);
    assert_eq!(loaded.capture_date, None);
}

#[test]
fn catalog_detection_requires_the_domain_file() {
    assert!(!contains_catalog(&vec![]));
    assert!(!contains_catalog(&vec![false, false]));
    assert!(contains_catalog(&vec![false, true]));
}

#[test]
fn places_for_translations() {
    assert_eq!(
        user_locale_directory(Some("/home/u/.local/share")),
        "/home/u/.local/share/locale"
    );
    assert_eq!(user_locale_directory(None), ".local/share/locale");
    assert_eq!(locale_directory(Some("/x"), "/user", true), "/x");
    assert_eq!(locale_directory(None, "/user", true), "/user");
    assert_eq!(locale_directory(None, "/user", false), "/usr/share/locale");
    assert_eq!(join("a/", "b"), "a/b");
    assert_eq!(join("", "b"), "b");
}

#[test]
fn placeholders_are_replaced() {
    assert_eq!(
        fill(
            "{a} of {b}, {a}; {c}",
            &[("a", "1".to_string()), ("b", "{a}".to_string())]
        ),
        "1 of {a}, 1; {c}"
    );
    assert_eq!(
        fill("{x}", &[("x", "{y}".to_string()), ("y", "z".to_string())]),
        "z"
    );
    assert_eq!(fill("plain", &[]), "plain");
    assert_eq!(fill_count("{count} / {count}", 12), "12 / 12");
    // Without a catalogue, messages stay as they are.
    assert_eq!(tr("Scanner ready"), "Scanner ready");
    assert_eq!(
        tr_args("Error: {error}", &[("error", "x".to_string())]),
        "Error: x"
    );
    assert_eq!(trn("{count} photo", "{count} photos", 1), "1 photo");
    assert_eq!(trn("{count} photo", "{count} photos", 3), "3 photos");
}

#[test]
fn stale_messages_are_ignored() {
    for note in [
        Note::Progress(double(5.0)),
        Note::Status,
        Note::Devices(Ok(2)),
        Note::Work(Ok(())),
    ] {
        let (next, effects) = handle_message(session(), 6, note);
        assert_eq!(next, session());
        assert!(effects.is_empty());
    }
}

#[test]
fn messages_of_the_current_operation() {
    let (next, effects) = handle_message(session(), 7, Note::Progress(double(31.4)));
    assert_eq!(next, session());
    assert_eq!(effects, [Effect::ShowProgress(double(31.4))]);
    let (_, effects) = handle_message(session(), 7, Note::ScanComplete);
    assert_eq!(effects, [Effect::EndProgress, Effect::ShowText]);

    let (next, effects) = handle_message(session(), 7, Note::Work(Ok(())));
    assert!(!next.busy && !next.cancellable);
    assert_eq!(
        effects,
        [
            Effect::ReleaseOperation,
            Effect::DropReview,
            Effect::RememberDate,
            Effect::SaveSettings,
            Effect::EndWork(Ending::ResultTitle),
            Effect::ShowResult
        ]
    );
    let (_, effects) = handle_message(session(), 7, Note::Work(Err(Stop::Failed)));
    assert_eq!(effects.last(), Some(&Effect::ShowError));
    let (_, effects) = handle_message(session(), 7, Note::Work(Err(Stop::Cancelled)));
    assert_eq!(effects.last(), Some(&Effect::EndWork(Ending::Cancelled)));
    let (_, effects) = handle_message(session(), 7, Note::ReviewReady(Ok(3)));
    assert_eq!(
        effects,
        [
            Effect::ReleaseOperation,
            Effect::EndWork(Ending::PhotosDetected(3)),
            Effect::ShowReview
        ]
    );
    let (_, effects) = handle_message(session(), 7, Note::ReviewReady(Err(Stop::Failed)));
    assert_eq!(
        effects,
        [
            Effect::ReleaseOperation,
            Effect::EndWork(Ending::ReviewFailed),
            Effect::ShowError
        ]
    );
}

#[test]
fn answers_to_searches() {
    let searching = Session {
        busy: false,
        discovery_pending: true,
        ..session()
    };
    let (next, effects) = handle_message(searching, 7, Note::Devices(Ok(0)));
    assert_eq!(next.devices, 0);
    assert!(!next.discovery_pending);
    assert_eq!(effects[0], Effect::HideCancel);
    assert_eq!(effects[1], Effect::ReleaseOperation);
    assert!(effects.contains(&Effect::TellNoScanner));
    assert!(effects.contains(&Effect::EnableScan(false)));
    let (next, effects) = handle_message(searching, 7, Note::Devices(Ok(2)));
    assert_eq!(next.devices, 2);
    assert!(effects.contains(&Effect::TellScannerReady));
    let (next, effects) = handle_message(searching, 7, Note::Devices(Err(Stop::Failed)));
    assert_eq!(next.devices, 1);
    assert!(effects.contains(&Effect::EnableScan(true)));
    assert!(effects.contains(&Effect::ShowError));
    let (_, effects) = handle_message(searching, 7, Note::Devices(Err(Stop::Cancelled)));
    assert!(!effects.contains(&Effect::ShowError));
}

#[test]
fn displaced_searches_are_repeated() {
    let displaced = Session {
        discovery_pending: true,
        ..session()
    };
    for note in [
        Note::Work(Ok(())),
        Note::Work(Err(Stop::Cancelled)),
        Note::ReviewReady(Ok(1)),
        Note::ReviewReady(Err(Stop::Failed)),
    ] {
        let (next, effects) = handle_message(displaced, 7, note);
        assert_eq!(effects.last(), Some(&Effect::RequestDevices));
        let again = request_devices(next).unwrap();
        assert!(again.discovery_pending);
    }
    assert_eq!(request_devices(displaced), None);
}

#[test]
fn closing_windows_start_nothing() {
    let (closing, step) = close_request(Session {
        discovery_pending: true,
        ..session()
    });
    assert_eq!(step, ClosingStep::CancelOperation);
    let (next, effects) = handle_message(closing, 7, Note::Work(Ok(())));
    assert!(next.closing);
    assert_eq!(effects, [Effect::ReleaseOperation, Effect::CloseChannel]);
    let (_, effects) = handle_message(closing, 7, Note::Devices(Ok(1)));
    assert_eq!(
        effects,
        [
            Effect::HideCancel,
            Effect::ReleaseOperation,
            Effect::CloseChannel
        ]
    );
    let (_, effects) = handle_message(closing, 7, Note::Status);
    assert!(effects.is_empty());
    let (_, step) = close_request(Session {
        cancellable: false,
        ..session()
    });
    assert_eq!(step, ClosingStep::CloseChannel);
}

#[test]
fn operations_get_new_numbers() {
    let (next, cancels) = begin_operation(session());
    assert_eq!(next.operation_id, 8);
    assert!(cancels && next.cancellable);
    let (next, cancels) = begin_operation(Session {
        operation_id: u64::MAX,
        cancellable: false,
        ..session()
    });
    assert_eq!(next.operation_id, 0);
    assert!(!cancels);
}

#[test]
fn controls_follow_the_choices() {
    let idle = controls(false, 1, 0, 0, false);
    assert!(idle.scan && idle.idle && idle.detection && idle.threshold && idle.quality);
    assert!(!controls(false, 0, 0, 0, false).scan);
    assert!(!controls(false, 1, 1, 0, false).detection);
    assert!(!controls(false, 1, 0, 1, false).quality);
    assert!(!controls(false, 1, 0, 0, true).threshold);
    let busy = controls(true, 1, 0, 0, false);
    assert!(!(busy.scan || busy.idle || busy.detection || busy.threshold || busy.quality));
}

#[test]
fn forms_become_settings() {
    let form = |date: &str, dpi_index: u32, format_index: u32, auto_threshold: bool| Form {
        date: date.to_string(),
        dpi_index,
        format_index,
        min_area: double(3.0),
        auto_threshold,
        threshold: double(40.0),
        padding: double(0.5),
        quality: 77,
    };
    let config = collect_config(&form(" 01.09.1995 ", 0, 1, true), true).unwrap();
    assert_eq!(config.dpi, Some(300));
    assert_eq!(config.output_format, OutputFormat::Png);
    assert_eq!(config.threshold, None);
    assert_eq!(config.jpeg_quality, 77);
    assert_eq!(float(config.min_area_percent), 3.0);
    assert_eq!(float(config.padding_percent), 0.5);
    assert_eq!(
        config.capture_date,
        Some(CaptureDate {
            year: 1995,
            month: 9,
            day: 1
        })
    );
    let config = collect_config(&form("1.1.2000", 2, 2, false), true).unwrap();
    assert_eq!(config.dpi, Some(1200));
    assert_eq!(config.output_format, OutputFormat::Tiff);
    assert_eq!(config.threshold, Some(double(40.0)));
    let config = collect_config(&form("1.1.2000", 9, 9, false), false).unwrap();
    assert_eq!(config.dpi, None);
    assert_eq!(config.output_format, OutputFormat::Jpeg);
    assert!(collect_config(&form("31.02.2000", 0, 0, true), true).is_none());
    assert_eq!(calendar_text(1, 9, 1995), "01.09.1995");
    assert_eq!(calendar_text(31, 12, 33), "31.12.0033");
}

#[test]
fn style_sheets_are_read_again_when_they_change() {
    assert!(reloads_theme(true, FileEvent::ChangesDone));
    assert!(reloads_theme(true, FileEvent::Deleted));
    assert!(!reloads_theme(true, FileEvent::Other));
    assert!(!reloads_theme(false, FileEvent::Created));
    assert_eq!(previous_page(true), "picture");
    assert_eq!(previous_page(false), "empty");
}

#[test]
fn options_become_settings() {
    let export = ExportOptions {
        output: None,
        format: FormatArgument::Tif,
        quality: 80,
        prefix: None,
        date: None,
    };
    let split = SplitOptions {
        min_area: double(5.0),
        threshold: Some(double(10.0)),
        padding: double(0.0),
        no_preview: false,
    };
    let full = config(&export, None, Some(600));
    assert_eq!(full.output_format, OutputFormat::Tiff);
    assert_eq!(float(full.min_area_percent), 2.0);
    assert_eq!(float(full.padding_percent), 1.2);
    assert_eq!(full.threshold, None);
    assert_eq!(full.dpi, Some(600));
    let separated = config(&export, Some(split), None);
    assert_eq!(float(separated.min_area_percent), 5.0);
    assert_eq!(float(separated.padding_percent), 0.0);
    assert_eq!(separated.threshold, Some(double(10.0)));
    assert_eq!(separated.jpeg_quality, 80);
    assert_eq!(separated.max_detection_size, 1800);
    assert_eq!(output_directory(&export, "usual"), "usual");
    let chosen = ExportOptions {
        output: Some("there".to_string()),
        ..export
    };
    assert_eq!(output_directory(&chosen, "usual"), "there");
    assert_eq!(FormatArgument::default(), FormatArgument::Jpg);
    assert_eq!(OutputFormat::from(FormatArgument::Png), OutputFormat::Png);
}

#[test]
fn scanners_are_chosen() {
    let device = ScannerDevice {
        name: "net:x".to_string(),
        vendor: "Acme".to_string(),
        model: "X1".to_string(),
        kind: "flatbed".to_string(),
    };
    let named = ScannerOptions {
        device: Some("usb:1".to_string()),
        dpi: 600,
    };
    let any = ScannerOptions {
        device: None,
        dpi: 600,
    };
    assert!(!must_search(&named));
    assert!(must_search(&any));
    assert!(
        matches!(scanner_name(&named, &vec![device.clone()]), ScannerChoice::Named(name) if name == "usb:1")
    );
    assert!(
        matches!(scanner_name(&any, &vec![device.clone()]), ScannerChoice::Found { name, label }
            if name == "net:x" && label == "Acme X1 (net:x)")
    );
    assert!(matches!(
        scanner_name(&any, &Vec::new()),
        ScannerChoice::Missing
    ));
    assert_eq!(device_line(&device), "net:x\tAcme\tX1\tflatbed");
}

#[test]
fn batches_go_on_after_failures() {
    let mut batch = Batch::new(3);
    let mut turns = Vec::new();
    while let Some(index) = batch.next() {
        turns.push(index);
        batch.record(index != 1);
    }
    assert_eq!(turns, [0, 1, 2]);
    assert!(!batch.succeeded());
    let mut batch = Batch::new(1);
    batch.record(true);
    assert_eq!(batch.next(), None);
    assert!(batch.succeeded());
}

#[test]
fn usual_output_directory() {
    assert_eq!(
        default_output_directory(Some("/home/u/Pictures")),
        "/home/u/Pictures/PhotoScanner"
    );
    assert_eq!(default_output_directory(None), "output/PhotoScanner");
    assert_eq!(OUTPUT_FOLDER, "PhotoScanner");
    assert_eq!(APP_ID, "de.martin.PhotoScanner");
    assert_eq!(APP_NAME, "Photo Scanner");
}

fn import(outcomes: Vec<Processed>, cancelled_before: Option<usize>) -> ImportRun {
    let mut run = start_import(outcomes.len());
    for (index, outcome) in outcomes.into_iter().enumerate() {
        run = run.advance(ImportEvent::Checked {
            cancelled: cancelled_before == Some(index),
        });
        if matches!(run.stage, ImportStage::Finished(_)) {
            return run;
        }
        run = run.advance(ImportEvent::Processed(outcome));
        if matches!(run.stage, ImportStage::Finished(_)) {
            return run;
        }
    }
    run.advance(ImportEvent::Checked { cancelled: false })
}

#[test]
fn imports_count_photos_and_failures() {
    let failed = |line: &str| Processed::Failed {
        cancelled: false,
        line: line.to_string(),
    };
    let run = import(
        vec![Processed::Done(2), failed("b"), Processed::Done(3)],
        None,
    );
    assert!(matches!(
        run.stage,
        ImportStage::Finished(Outcome::Done { last: 2 })
    ));
    assert_eq!(run.photos, 5);
    assert_eq!(run.failures, ["b"]);
    let run = import(vec![Processed::Done(2), failed("b")], None);
    assert!(matches!(
        run.stage,
        ImportStage::Finished(Outcome::Done { last: 0 })
    ));
    let run = import(vec![failed("a"), failed("b")], None);
    assert!(matches!(
        run.stage,
        ImportStage::Finished(Outcome::NothingDone)
    ));
    assert_eq!(run.failures, ["a", "b"]);
    let run = import(vec![Processed::Done(1), Processed::Done(1)], Some(1));
    assert!(matches!(
        run.stage,
        ImportStage::Finished(Outcome::Cancelled)
    ));
    let run = import(
        vec![Processed::Failed {
            cancelled: true,
            line: "x".to_string(),
        }],
        None,
    );
    assert!(matches!(
        run.stage,
        ImportStage::Finished(Outcome::Cancelled)
    ));
    assert!(run.failures.is_empty());
}

#[test]
fn reviews_keep_choices_and_turns() {
    let mut review = Review::new(&vec![0, 0, 1, 2]);
    assert_eq!(review.included_count(), 4);
    review.choose_photo(0, false);
    review.choose_photo(0, false);
    review.choose_photo(3, false);
    assert_eq!(review.included_count(), 2);
    review.choose_photo(3, true);
    assert_eq!(review.included_count(), 3);
    assert_eq!(review.selected(0), [1]);
    assert_eq!(review.selected(1), [2]);
    assert_eq!(review.selected(2), [3]);
    assert!(review.selected(3).is_empty());
    for expected in [1, 2, 3, 0, 1] {
        review.rotate(1);
        assert_eq!(review.photos[1].quarter_turns, expected);
    }
    assert!(review.can_save());
    for index in 0..4 {
        review.choose_photo(index, false);
    }
    assert!(!review.can_save());
    assert_eq!(photo_file(0, 12), "photo_000_012.png");
    assert_eq!(thumbnail_file(3, 1000), "thumb_003_1000.jpg");
    assert_eq!(overview_file(7), "overview_007.jpg");
}

#[test]
fn work_that_starts_ends_a_review() {
    let idle = Session {
        busy: false,
        cancellable: false,
        ..session()
    };
    let begun = begin_work(idle);
    assert_eq!(begun.session.operation_id, 8);
    assert!(begun.session.busy);
    assert!(begun.session.cancellable);
    assert!(!begun.displaces);
    assert!(!begun.ends_review);
    let begun = begin_work(Session {
        cancellable: true,
        reviewing: true,
        ..idle
    });
    assert!(begun.displaces);
    assert!(begun.ends_review);
    assert!(!begun.session.reviewing);
}

#[test]
fn reviews_open_and_close_with_messages() {
    let (reviewing, _) = handle_message(session(), 7, Note::ReviewReady(Ok(2)));
    assert!(reviewing.reviewing);
    assert!(!reviewing.busy);
    assert_eq!(
        discard_review(reviewing),
        Some(Session {
            reviewing: false,
            ..reviewing
        })
    );
    assert_eq!(discard_review(session()), None);
    let (failed, _) = handle_message(session(), 7, Note::ReviewReady(Err(Stop::Failed)));
    assert!(!failed.reviewing);
    let busy = Session {
        reviewing: true,
        ..session()
    };
    assert!(!handle_message(busy, 7, Note::Work(Ok(()))).0.reviewing);
    assert_eq!(handle_message(busy, 6, Note::Work(Ok(()))).0, busy);
}

#[test]
fn work_lasts_until_its_last_message() {
    let begun = begin_work(Session {
        busy: false,
        cancellable: false,
        ..session()
    });
    let mut current = begun.session;
    for (number, note) in [
        (7, Note::Work(Ok(()))),
        (8, Note::Progress(double(50.0))),
        (8, Note::ScanComplete),
        (8, Note::Status),
        (6, Note::ReviewReady(Ok(1))),
    ] {
        current = handle_message(current, number, note).0;
        assert!(current.busy);
        assert_eq!(request_devices(current), None);
    }
    current = handle_message(current, 8, Note::Work(Err(Stop::Cancelled))).0;
    assert!(!current.busy);
}

#[test]
fn failed_workers_report_a_cancellation_first() {
    let message =
        |error, was_cancelled| worker_message(error, was_cancelled, "Cancelled.", "Broken.");
    assert_eq!(message(Some("No paper"), false), "No paper");
    assert_eq!(message(Some("No paper"), true), "Cancelled.");
    assert_eq!(message(None, false), "Broken.");
    assert_eq!(message(None, true), "Broken.");
    assert_eq!(
        stop_of(&message(Some("No paper"), true), "Cancelled."),
        Stop::Cancelled
    );
}

#[test]
fn sheets_are_made_of_two_images_or_more() {
    let images = |names: &[&str]| names.iter().map(|name| name.to_string()).collect::<Vec<_>>();
    assert!(matches!(
        compose_image_sheet(&images(&[]), "/tmp"),
        SheetPlan::Missing
    ));
    assert!(matches!(
        compose_image_sheet(&images(&["/a.jpg"]), "/tmp"),
        SheetPlan::Single(image) if image == "/a.jpg"
    ));
    assert!(matches!(
        compose_image_sheet(&images(&["/a.jpg", "/b.jpg"]), "/tmp"),
        SheetPlan::Composed(file) if file == "/tmp/overview_batch.jpg"
    ));
    assert_eq!(SHEET_FILE, "overview_batch.jpg");
    assert_eq!((SHEET_QUALITY, SHOWN_QUALITY), (88, 86));
}

#[test]
fn zoom_steps_undo_each_other() {
    assert_eq!(f64::from_bits(ZOOM_IN_STEP), 1.25);
    assert_eq!(f64::from_bits(ZOOM_OUT_STEP), 1.0 / 1.25);
    assert_eq!(f64::from_bits(ZOOM_IN_STEP) * f64::from_bits(ZOOM_OUT_STEP), 1.0);
}
